//! `memory_read`: one memory, several, or a page of them.

use crate::canonical::laws::{lemma_room_mono, lemma_stored_room};
use crate::canonical::repository::{by_id, found, legacy_id, legacy_name, looked_up};
use crate::compatibility::lemma::tool_args::MemoryReadArgs;
use crate::daemon::dispatcher::{Dispatcher, DispatcherView};
use crate::daemon::envelope::{IpcEnvelope, ToolResult, ToolResultView};
use crate::daemon::tools::common::{
    answer, err_result, err_view, format_result, formatted, not_found, not_found_text, read_by,
    record_access, relevance, relevance_of, text_or, text_or_else, Hit, HitView, Outcome,
};
use crate::daemon::tools::data::{
    Explanation, ExplanationView, FragmentEntry, GraphEntry, GraphEntryView, ReadData, ReadDataView,
    ToolData, ToolDataView,
};
use crate::daemon::tools::detail::{
    detail_data, detail_entry, detail_text, render_detail, render_summary_index, summary_data,
    summary_entry, summary_index,
};
use crate::daemon::tools::explain::{
    deep, explain_recall, explanation, explanation_text, format_recall_explanation, Selection,
    SelectionView,
};
use crate::daemon::tools::graph::{around, expand_graph, Neighbour};
use crate::dates::{date_start, parse_iso_date};
use crate::domain::command::{DomainCommandView, DomainResult};
use crate::domain::id::EntityId;
use crate::domain::memory::{Memory, MemoryView};
use crate::domain::score::Score;
use crate::domain::state::{memory_of, StateView};
use crate::figures::{ratio_string, ratio_text};
use crate::lists::{mapped, next_page, page, rank, select, take_page, written};
use crate::rank::ranked;
use crate::text::{
    dec, decimal, first_chars, join, joined, lower, lowercase, opt_view, same, split_words,
    take_chars, views,
};
use vstd::prelude::*;

verus! {

/// A memory around another.
pub open spec fn graph_line_text(
    id: Seq<char>,
    depth: nat,
    score: Seq<char>,
    title: Seq<char>,
    summary: Seq<char>,
) -> Seq<char> {
    "\n- ["@ + id + "] (depth "@ + dec(depth) + ", score "@ + score + ") "@ + title + ": "@ + summary
}

pub fn graph_line(id: &str, depth: u64, score: &str, title: &str, summary: &str) -> (r: String)
    ensures
        r@ == graph_line_text(id@, depth as nat, score@, title@, summary@),
{
    let mut out = "\n- [".to_owned();
    out.append(id);
    out.append("] (depth ");
    out.append(decimal(depth).as_str());
    out.append(", score ");
    out.append(score);
    out.append(") ");
    out.append(title);
    out.append(": ");
    out.append(summary);
    out
}

/// What is said of a memory around another.
pub open spec fn brief(m: MemoryView) -> Seq<char> {
    if m.description.len() == 0 {
        first_chars(m.fragment, 80)
    } else {
        m.description
    }
}

pub open spec fn graph_entry_line(x: (MemoryView, u32)) -> Seq<char> {
    graph_line_text(
        legacy_name(x.0),
        x.1 as nat,
        ratio_text(1, x.1 as nat),
        x.0.title,
        brief(x.0),
    )
}

/// The memories around one, as text.
pub open spec fn graph_text(xs: Seq<(MemoryView, u32)>) -> Seq<char> {
    if xs.len() == 0 {
        ""@
    } else {
        "\n\n## Related knowledge (graph, depth ≤ 2)"@ + written(
            xs,
            |x: (MemoryView, u32)| graph_entry_line(x),
        )
    }
}

fn graph_string(xs: &Vec<Neighbour>) -> (r: String)
    requires
        forall|j: int| 0 <= j < xs@.len() ==> (#[trigger] xs@[j]).depth > 0,
    ensures
        r@ == graph_text(views(xs@)),
{
    let ghost vs = views(xs@);
    if xs.len() == 0 {
        return "".to_owned();
    }
    let mut out = "\n\n## Related knowledge (graph, depth ≤ 2)".to_owned();
    let ghost head = out@;
    let ghost line = |x: (MemoryView, u32)| graph_entry_line(x);
    let mut i: usize = 0;
    proof {
        assert(vs.take(0) =~= Seq::empty());
        assert(head + written(vs.take(0), line) =~= head);
    }
    while i < xs.len()
        invariant
            i <= xs@.len(),
            vs == views(xs@),
            forall|j: int| 0 <= j < xs@.len() ==> (#[trigger] xs@[j]).depth > 0,
            line == (|x: (MemoryView, u32)| graph_entry_line(x)),
            out@ == head + written(vs.take(i as int), line),
        decreases xs@.len() - i,
    {
        let m = &xs[i].memory;
        let summary = if m.description.as_str().is_empty() {
            take_chars(m.fragment.as_str(), 80)
        } else {
            m.description.clone()
        };
        let t = graph_line(
            legacy_id(m).as_str(),
            xs[i].depth as u64,
            ratio_string(1, xs[i].depth as u64).as_str(),
            m.title.as_str(),
            summary.as_str(),
        );
        out.append(t.as_str());
        proof {
            let w = vs.take(i + 1);
            assert(w.drop_last() =~= vs.take(i as int));
            assert(w.last() == xs@[i as int]@);
            assert(head + written(w, line) =~= head + written(vs.take(i as int), line) + t@);
        }
        i += 1;
    }
    proof {
        assert(vs.take(vs.len() as int) =~= vs);
    }
    out
}

/// A memory around another, as an entry.
pub open spec fn graph_entry(x: (MemoryView, u32)) -> GraphEntryView {
    GraphEntryView { id: legacy_name(x.0), title: x.0.title, depth: x.1 }
}

// ---------------------------------------------------------------------------
// One memory
// ---------------------------------------------------------------------------

/// A memory that was asked for by name.
pub open spec fn by_name(m: MemoryView) -> SelectionView {
    SelectionView { memory: m, method: "explicit_id"@, rank: None, depth: None, root: None }
}

/// A memory that was reached from another.
pub open spec fn by_edge(x: (MemoryView, u32), root: Seq<char>) -> SelectionView {
    SelectionView {
        memory: x.0,
        method: "graph_expansion"@,
        rank: None,
        depth: Some(x.1),
        root: Some(root),
    }
}

/// An explanation behind a text, if there is one.
pub open spec fn with_explanation(text: Seq<char>, e: Option<ExplanationView>) -> Seq<char> {
    match e {
        Some(x) => text + explanation_text(x),
        None => text,
    }
}

/// What `memory_read` answers for one name. The memory is shown as it is after
/// the read, and explained as it was before.
pub open spec fn read_one(d: DispatcherView, env: IpcEnvelope, args: MemoryReadArgs, id: Seq<char>) ->
    Outcome {
    match looked_up(d.store, id) {
        None => (d, Ok(err_view(not_found_text(id)))),
        Some(pre) => {
            let (after, fault) = read_by(d, env, seq![pre.id], opt_view(args.context));
            match fault {
                Some(e) => (after, Err(e)),
                None => {
                    let m = memory_of(after.store.memories, pre.id);
                    let graph = if args.expand_graph {
                        around(after.store, m.id)
                    } else {
                        Seq::empty()
                    };
                    let sels = seq![by_name(pre)] + graph.map_values(
                        |x: (MemoryView, u32)| by_edge(x, legacy_name(m)),
                    );
                    let why = if args.explain {
                        Some(explanation(sels, "explicit_ids"@, None))
                    } else {
                        None
                    };
                    let text = with_explanation(
                        detail_text(after.store, m) + graph_text(graph),
                        why,
                    );
                    let data = ReadDataView {
                        count: 1,
                        total: None,
                        fragments: seq![detail_entry(m)],
                        has_more: false,
                        next_offset: None,
                        related_graph: graph.map_values(|x: (MemoryView, u32)| graph_entry(x)),
                        recall_explanation: why,
                    };
                    (
                        after,
                        Ok(formatted(text, ToolDataView::Read(data), args.response_format)),
                    )
                },
            }
        },
    }
}

fn graph_entries(xs: &Vec<Neighbour>) -> (r: Vec<GraphEntry>)
    ensures
        views(r@) == views(xs@).map_values(|x: (MemoryView, u32)| graph_entry(x)),
{
    mapped(
        xs,
        |x: &Neighbour| -> (e: GraphEntry)
            ensures
                e@ == graph_entry(x@)
            {
                GraphEntry {
                    id: legacy_id(&x.memory),
                    title: x.memory.title.clone(),
                    depth: x.depth,
                }
            },
        Ghost(|x: (MemoryView, u32)| graph_entry(x)),
    )
}

fn one_selection(pre: &Memory, graph: &Vec<Neighbour>, root: &str) -> (r: Vec<Selection>)
    requires
        forall|j: int| 0 <= j < graph@.len() ==> (#[trigger] graph@[j]).depth > 0,
    ensures
        views(r@) == seq![by_name(pre@)] + views(graph@).map_values(
            |x: (MemoryView, u32)| by_edge(x, root@),
        ),
        forall|j: int| 0 <= j < r@.len() ==> (#[trigger] r@[j]).depth != Some(0u32),
{
    let mut out: Vec<Selection> = Vec::new();
    out.push(
        Selection {
            memory: pre.clone(),
            method: "explicit_id".to_owned(),
            rank: None,
            depth: None,
            root: None,
        },
    );
    let mut i: usize = 0;
    while i < graph.len()
        invariant
            i <= graph@.len(),
            forall|j: int| 0 <= j < graph@.len() ==> (#[trigger] graph@[j]).depth > 0,
            out@.len() == i + 1,
            out@[0]@ == by_name(pre@),
            forall|j: int| 0 <= j < out@.len() ==> (#[trigger] out@[j]).depth != Some(0u32),
            forall|j: int|
                1 <= j < out@.len() ==> (#[trigger] out@[j])@ == by_edge(graph@[j - 1]@, root@),
        decreases graph@.len() - i,
    {
        out.push(
            Selection {
                memory: graph[i].memory.clone(),
                method: "graph_expansion".to_owned(),
                rank: None,
                depth: Some(graph[i].depth),
                root: Some(root.to_owned()),
            },
        );
        i += 1;
    }
    proof {
        assert(views(out@) =~= seq![by_name(pre@)] + views(graph@).map_values(
            |x: (MemoryView, u32)| by_edge(x, root@),
        ));
    }
    out
}

fn exec_read_one(disp: &mut Dispatcher, envelope: &IpcEnvelope, args: &MemoryReadArgs, id: &str) -> (
r: DomainResult<ToolResult>)
    requires
        old(disp)@.wf(),
        old(disp)@.store.room(1),
    ensures
        final(disp)@.wf(),
        (final(disp)@, answer(r)) == read_one(old(disp)@, *envelope, *args, id@),
{
    let pre = match disp.repo.look_up(id) {
        Some(m) => m,
        None => return Ok(err_result(not_found(id).as_str())),
    };
    let mut ids: Vec<EntityId> = Vec::new();
    ids.push(pre.id);
    proof {
        assert(ids@ =~= seq![pre.id]);
    }
    let ghost before = disp@;
    if let Err(e) = record_access(disp, envelope, &ids, &args.context) {
        return Err(e);
    }
    proof {
        lemma_stored_room(
            before.store,
            envelope.sub_context(0),
            DomainCommandView::Access { memory_ids: ids@, context: opt_view(args.context) },
            0,
        );
    }
    let m = match disp.repo.memory(pre.id) {
        Some(x) => x.clone(),
        None => return Ok(err_result(not_found(id).as_str())),
    };
    let mut text = render_detail(&disp.repo, &m);
    let graph: Vec<Neighbour> = if args.expand_graph {
        expand_graph(&disp.repo, m.id)
    } else {
        Vec::new()
    };
    proof {
        if !args.expand_graph {
            assert(views(graph@) =~= Seq::empty());
        }
    }
    text.append(graph_string(&graph).as_str());
    let why = if args.explain {
        let sels = one_selection(&pre, &graph, legacy_id(&m).as_str());
        let e = explain_recall(&sels, "explicit_ids", None);
        proof {
            assert forall|j: int| 0 <= j < e@.items.len() implies (#[trigger] e@.items[j]).depth
                != Some(0u32) by {
                assert(views(sels@)[j] == sels@[j]@);
            }
        }
        text.append(format_recall_explanation(&e).as_str());
        Some(e)
    } else {
        None
    };
    let mut fragments: Vec<FragmentEntry> = Vec::new();
    fragments.push(detail_data(&m));
    proof {
        assert(views(fragments@) =~= seq![detail_entry(m@)]);
    }
    let data = ReadData {
        count: 1,
        total: None,
        fragments,
        has_more: false,
        next_offset: None,
        related_graph: graph_entries(&graph),
        recall_explanation: why,
    };
    Ok(format_result(text, ToolData::Read(data), args.response_format))
}

// ---------------------------------------------------------------------------
// Several memories
// ---------------------------------------------------------------------------

/// A name that stands for nothing.
pub open spec fn missing_line_text(id: Seq<char>) -> Seq<char> {
    "Fragment ["@ + id + "] not found."@
}

pub fn missing_line(id: &str) -> (r: String)
    ensures
        r@ == missing_line_text(id@),
{
    let mut out = "Fragment [".to_owned();
    out.append(id);
    out.append("] not found.");
    out
}

/// The memories that names stand for; names that stand for none are passed
/// over.
pub open spec fn named(s: StateView, names: Seq<Seq<char>>) -> Seq<MemoryView>
    decreases names.len(),
{
    if names.len() == 0 {
        Seq::empty()
    } else {
        match looked_up(s, names.last()) {
            Some(m) => named(s, names.drop_last()).push(m),
            None => named(s, names.drop_last()),
        }
    }
}

/// What is written for a name.
pub open spec fn name_text(s: StateView, name: Seq<char>) -> Seq<char> {
    match looked_up(s, name) {
        Some(m) => detail_text(s, m),
        None => missing_line_text(name),
    }
}

/// The identifiers of memories.
pub open spec fn ids_of(ms: Seq<MemoryView>) -> Seq<EntityId> {
    ms.map_values(|m: MemoryView| m.id)
}

/// What `memory_read` answers for several names. They are shown as they were
/// before the read.
pub open spec fn read_some(
    d: DispatcherView,
    env: IpcEnvelope,
    args: MemoryReadArgs,
    names: Seq<Seq<char>>,
) -> Outcome {
    let ms = named(d.store, names);
    let (after, fault) = read_by(d, env, ids_of(ms), opt_view(args.context));
    match fault {
        Some(e) => (after, Err(e)),
        None => {
            let why = if args.explain && ms.len() > 0 {
                Some(
                    explanation(
                        ms.map_values(|m: MemoryView| by_name(m)),
                        "explicit_ids"@,
                        None,
                    ),
                )
            } else {
                None
            };
            let text = with_explanation(
                joined(names.map_values(|n: Seq<char>| name_text(d.store, n)), "\n\n"@),
                why,
            );
            let data = ReadDataView {
                count: ms.len() as usize,
                total: None,
                fragments: ms.map_values(|m: MemoryView| detail_entry(m)),
                has_more: false,
                next_offset: None,
                related_graph: Seq::empty(),
                recall_explanation: why,
            };
            (after, Ok(formatted(text, ToolDataView::Read(data), args.response_format)))
        },
    }
}

/// The identifiers of memories.
pub fn collect_ids(ms: &Vec<Memory>) -> (r: Vec<EntityId>)
    ensures
        r@ == ids_of(views(ms@)),
        r@.len() == ms@.len(),
{
    let mut out: Vec<EntityId> = Vec::new();
    let mut i: usize = 0;
    while i < ms.len()
        invariant
            i <= ms@.len(),
            out@.len() == i,
            forall|j: int| 0 <= j < i ==> #[trigger] out@[j] == ms@[j]@.id,
        decreases ms@.len() - i,
    {
        out.push(ms[i].id);
        i += 1;
    }
    proof {
        assert(out@ =~= ids_of(views(ms@)));
    }
    out
}

fn exec_read_some(
    disp: &mut Dispatcher,
    envelope: &IpcEnvelope,
    args: &MemoryReadArgs,
    names: &Vec<String>,
) -> (r: DomainResult<ToolResult>)
    requires
        old(disp)@.wf(),
        old(disp)@.store.room(names@.len() as int),
    ensures
        final(disp)@.wf(),
        (final(disp)@, answer(r)) == read_some(old(disp)@, *envelope, *args, views(names@)),
{
    let ghost s = disp@.store;
    let ghost ns = views(names@);
    let mut results: Vec<String> = Vec::new();
    let mut ms: Vec<Memory> = Vec::new();
    let mut i: usize = 0;
    proof {
        assert(ns.take(0) =~= Seq::empty());
        assert(views(ms@) =~= Seq::empty());
    }
    while i < names.len()
        invariant
            i <= names@.len(),
            ns == views(names@),
            disp@ == old(disp)@,
            s == disp@.store,
            s.wf(),
            ms@.len() <= i,
            results@.len() == i,
            views(ms@) == named(s, ns.take(i as int)),
            forall|j: int| 0 <= j < i ==> (#[trigger] results@[j])@ == name_text(s, ns[j]),
        decreases names@.len() - i,
    {
        broadcast use crate::text::lemma_views_push;

        proof {
            let t = ns.take(i + 1);
            assert(t.drop_last() =~= ns.take(i as int));
            assert(t.last() == names@[i as int]@);
            assert(ns[i as int] == names@[i as int]@);
        }
        match disp.repo.look_up(names[i].as_str()) {
            Some(m) => {
                results.push(render_detail(&disp.repo, &m));
                ms.push(m);
            },
            None => {
                results.push(missing_line(names[i].as_str()));
            },
        }
        i += 1;
    }
    proof {
        assert(ns.take(ns.len() as int) =~= ns);
        assert(views(results@) =~= ns.map_values(|n: Seq<char>| name_text(s, n)));
        assert(views(ms@).len() == ms@.len());
        lemma_room_mono(s, ms@.len() as int, names@.len() as int);
    }
    let ids = collect_ids(&ms);
    if let Err(e) = record_access(disp, envelope, &ids, &args.context) {
        return Err(e);
    }
    let mut text = join(&results, "\n\n");
    let why = if args.explain && ms.len() > 0 {
        let sels: Vec<Selection> = mapped(
            &ms,
            |m: &Memory| -> (x: Selection)
                ensures
                    x@ == by_name(m@)
                {
                    Selection {
                        memory: m.clone(),
                        method: "explicit_id".to_owned(),
                        rank: None,
                        depth: None,
                        root: None,
                    }
                },
            Ghost(|m: MemoryView| by_name(m)),
        );
        let e = explain_recall(&sels, "explicit_ids", None);
        text.append(format_recall_explanation(&e).as_str());
        Some(e)
    } else {
        None
    };
    let fragments: Vec<FragmentEntry> = mapped(
        &ms,
        |m: &Memory| -> (x: FragmentEntry)
            ensures
                x@ == detail_entry(m@)
            { detail_data(m) },
        Ghost(|m: MemoryView| detail_entry(m)),
    );
    let related_graph: Vec<GraphEntry> = Vec::new();
    proof {
        assert(views(related_graph@) =~= Seq::empty());
    }
    let data = ReadData {
        count: ms.len(),
        total: None,
        fragments,
        has_more: false,
        next_offset: None,
        related_graph,
        recall_explanation: why,
    };
    Ok(format_result(text, ToolData::Read(data), args.response_format))
}

// ---------------------------------------------------------------------------
// A page of memories
// ---------------------------------------------------------------------------

/// Whether a memory is in the scope of a read.
pub open spec fn in_scope(args: MemoryReadArgs, project: Option<Seq<char>>) -> bool {
    args.all || project is None || (args.project is Some && project->0 == args.project->0@)
}

/// Whether a request has a query.
pub open spec fn has_query(args: MemoryReadArgs) -> bool {
    args.query is Some && args.query->0@.len() > 0
}

/// The memories of the store that a read is about: by relevance where there is
/// a query, else by confidence.
pub open spec fn recall(s: StateView, args: MemoryReadArgs) -> Seq<MemoryView> {
    let ms = by_id(s.memories).filter(
        |m: MemoryView| m.lifecycle is Live && in_scope(args, m.project),
    );
    if has_query(args) {
        let q = lowercase(args.query->0@);
        ranked(ms, |m: MemoryView| (-(relevance(m, q) as int), m.id.0 as int))
    } else {
        ranked(ms, |m: MemoryView| (-(m.confidence.0 as int), m.id.0 as int))
    }
}

/// What a read is about: what the search backend found, or else the memories
/// of the store. An index that finds nothing does not hide what is stored.
pub open spec fn recalled(s: StateView, args: MemoryReadArgs, hits: Seq<HitView>) -> Seq<MemoryView> {
    if hits.len() > 0 {
        hits.map_values(|h: HitView| h.memory)
    } else {
        recall(s, args)
    }
}

/// Whether a memory meets the bounds of a read.
pub open spec fn within_bounds(args: MemoryReadArgs, m: MemoryView) -> bool {
    &&& args.min_confidence is Some ==> m.confidence.0 >= (args.min_confidence->0).0
    &&& args.after_date is Some && date_start(args.after_date->0@) is Some ==> m.created_at.0
        >= date_start(args.after_date->0@)->0
    &&& args.before_date is Some && date_start(args.before_date->0@) is Some ==> m.created_at.0
        <= date_start(args.before_date->0@)->0
}

/// How many memories a page holds.
pub open spec fn page_limit(args: MemoryReadArgs) -> int {
    match args.limit {
        None => 30,
        Some(n) => if n < 1 {
            1
        } else if n > 100 {
            100
        } else {
            n as int
        },
    }
}

pub open spec fn page_offset(args: MemoryReadArgs) -> int {
    match args.offset {
        None => 0,
        Some(n) => n as int,
    }
}

/// There is a next page.
pub open spec fn more_note_text(n: nat, total: nat, offset: nat, next: nat) -> Seq<char> {
    "\nShowing "@ + dec(n) + " of "@ + dec(total) + " fragments (offset "@ + dec(offset) + "). Pass offset="@ + dec(next) + " for the next page, or use the query parameter to search."@
}

pub fn more_note(n: usize, total: usize, offset: usize, next: usize) -> (r: String)
    ensures
        r@ == more_note_text(n as nat, total as nat, offset as nat, next as nat),
{
    let mut out = "\nShowing ".to_owned();
    out.append(decimal(n as u64).as_str());
    out.append(" of ");
    out.append(decimal(total as u64).as_str());
    out.append(" fragments (offset ");
    out.append(decimal(offset as u64).as_str());
    out.append("). Pass offset=");
    out.append(decimal(next as u64).as_str());
    out.append(" for the next page, or use the query parameter to search.");
    out
}

/// There is no next page.
pub open spec fn top_note_text(n: nat) -> Seq<char> {
    "\nShowing top "@ + dec(n) + " fragments (ranked by relevance). Use query parameter to search, or id for a specific fragment."@
}

pub fn top_note(n: usize) -> (r: String)
    ensures
        r@ == top_note_text(n as nat),
{
    let mut out = "\nShowing top ".to_owned();
    out.append(decimal(n as u64).as_str());
    out.append(" fragments (ranked by relevance). Use query parameter to search, or id for a specific fragment.");
    out
}

/// A memory on a page.
pub open spec fn by_rank(m: MemoryView, method: Seq<char>, rank: u64) -> SelectionView {
    SelectionView { memory: m, method, rank: Some(rank), depth: None, root: None }
}

/// The selections of a page.
pub open spec fn page_selections(ms: Seq<MemoryView>, method: Seq<char>, offset: int) -> Seq<
    SelectionView,
> {
    Seq::new(ms.len(), |i: int| by_rank(ms[i], method, (offset + i + 1) as u64))
}

pub open spec fn browse_method(args: MemoryReadArgs) -> Seq<char> {
    if has_query(args) {
        "fts5_bm25"@
    } else {
        "confidence_browse"@
    }
}

/// The note below a page.
pub open spec fn page_note(args: MemoryReadArgs, shown: nat, total: nat) -> Seq<char> {
    let offset = page_offset(args);
    let next = offset + page_limit(args);
    if next < total {
        more_note_text(shown, total, offset as nat, next as nat)
    } else if args.query is None {
        top_note_text(shown)
    } else {
        ""@
    }
}

/// A page of the memories that a read is about, as an answer.
pub open spec fn shown_page(args: MemoryReadArgs, all: Seq<MemoryView>) -> ToolResultView {
    let offset = page_offset(args);
    let next = offset + page_limit(args);
    let ms = page(all, offset, page_limit(args));
    let has_more = next < all.len();
    let why = if args.explain && ms.len() > 0 {
        Some(
            explanation(
                page_selections(ms, browse_method(args), offset),
                if args.all {
                    "all_projects"@
                } else {
                    "project_and_global"@
                },
                if args.all {
                    None
                } else {
                    opt_view(args.project)
                },
            ),
        )
    } else {
        None
    };
    let scope = if args.all {
        "all projects"@
    } else {
        text_or(opt_view(args.project), "global"@)
    };
    let text = with_explanation(
        summary_index(ms, scope) + page_note(args, ms.len(), all.len()),
        why,
    );
    let data = ReadDataView {
        count: ms.len() as usize,
        total: Some(all.len() as usize),
        fragments: ms.map_values(|m: MemoryView| summary_entry(m)),
        has_more,
        next_offset: if has_more {
            Some(next as usize)
        } else {
            None
        },
        related_graph: Seq::empty(),
        recall_explanation: why,
    };
    formatted(text, ToolDataView::Read(data), args.response_format)
}

/// What `memory_read` answers without a name. The page is shown and explained
/// as it was before the read.
pub open spec fn read_page(
    d: DispatcherView,
    env: IpcEnvelope,
    args: MemoryReadArgs,
    hits: Seq<HitView>,
) -> Outcome {
    let all = recalled(d.store, args, hits).filter(|m: MemoryView| within_bounds(args, m));
    let ms = page(all, page_offset(args), page_limit(args));
    let (after, fault) = read_by(d, env, ids_of(ms), opt_view(args.context));
    match fault {
        Some(e) => (after, Err(e)),
        None => (after, Ok(shown_page(args, all))),
    }
}

fn scope_holds(args: &MemoryReadArgs, project: &Option<String>) -> (r: bool)
    ensures
        r == in_scope(*args, opt_view(*project)),
{
    if args.all {
        return true;
    }
    match (&args.project, project) {
        (_, None) => true,
        (Some(p), Some(mp)) => same(mp.as_str(), p.as_str()),
        (None, Some(_)) => false,
    }
}

/// The memories that a read is about.
pub fn recall_browse(disp: &Dispatcher, args: &MemoryReadArgs, hits: &Vec<Hit>) -> (r: Vec<Memory>)
    ensures
        views(r@) == recalled(disp@.store, *args, views(hits@)),
{
    proof {
        assert(views(hits@).len() == hits@.len());
    }
    if hits.len() > 0 {
        return mapped(
            hits,
            |h: &Hit| -> (m: Memory)
                ensures
                    m@ == h@.memory
                { h.memory.clone() },
            Ghost(|h: HitView| h.memory),
        );
    }
    let all = disp.repo.all_memories();
    let ms = select(
        &all,
        |m: &Memory| -> (b: bool)
            ensures
                b == (m@.lifecycle is Live && in_scope(*args, m@.project))
            { m.lifecycle.is_recallable() && scope_holds(args, &m.project) },
        Ghost(|m: MemoryView| m.lifecycle is Live && in_scope(*args, m.project)),
    );
    match &args.query {
        Some(query) => if !query.as_str().is_empty() {
            let q = lower(query.as_str());
            let ws = split_words(q.as_str());
            let ghost qv = q@;
            return rank(
                &ms,
                |m: &Memory| -> (k: (i128, u128))
                    ensures
                        k.0 == -relevance(m@, qv) && k.1 == m@.id.0
                    { (-(relevance_of(m, &ws, Ghost(qv)) as i128), m.id.0) },
                Ghost(|m: MemoryView| (-(relevance(m, qv) as int), m.id.0 as int)),
            );
        },
        None => {},
    }
    rank(
        &ms,
        |m: &Memory| -> (k: (i128, u128))
            ensures
                k.0 == -m@.confidence.0 && k.1 == m@.id.0
            { (-(m.confidence.0 as i128), m.id.0) },
        Ghost(|m: MemoryView| (-(m.confidence.0 as int), m.id.0 as int)),
    )
}

fn bounds_hold(
    min: Option<Score>,
    after: Option<u64>,
    before: Option<u64>,
    m: &Memory,
    Ghost(args): Ghost<MemoryReadArgs>,
) -> (r: bool)
    requires
        min == args.min_confidence,
        after == (if args.after_date is Some {
            date_start(args.after_date->0@)
        } else {
            None
        }),
        before == (if args.before_date is Some {
            date_start(args.before_date->0@)
        } else {
            None
        }),
    ensures
        r == within_bounds(args, m@),
{
    if let Some(x) = min {
        if m.confidence.0 < x.0 {
            return false;
        }
    }
    if let Some(x) = after {
        if m.created_at.0 < x {
            return false;
        }
    }
    if let Some(x) = before {
        if m.created_at.0 > x {
            return false;
        }
    }
    true
}

fn date_of_arg(t: &Option<String>) -> (r: Option<u64>)
    ensures
        r == (if t is Some {
            date_start(t->0@)
        } else {
            None
        }),
{
    match t {
        Some(x) => parse_iso_date(x.as_str()),
        None => None,
    }
}

fn selections_of(ms: &Vec<Memory>, method: &str, offset: usize) -> (r: Vec<Selection>)
    requires
        offset + ms@.len() <= u64::MAX,
    ensures
        views(r@) == page_selections(views(ms@), method@, offset as int),
{
    let mut out: Vec<Selection> = Vec::new();
    let mut i: usize = 0;
    while i < ms.len()
        invariant
            i <= ms@.len(),
            offset + ms@.len() <= u64::MAX,
            out@.len() == i,
            forall|j: int|
                0 <= j < i ==> (#[trigger] out@[j])@ == by_rank(
                    ms@[j]@,
                    method@,
                    (offset + j + 1) as u64,
                ),
        decreases ms@.len() - i,
    {
        out.push(
            Selection {
                memory: ms[i].clone(),
                method: method.to_owned(),
                rank: Some(offset as u64 + i as u64 + 1),
                depth: None,
                root: None,
            },
        );
        i += 1;
    }
    proof {
        assert(views(out@) =~= page_selections(views(ms@), method@, offset as int));
    }
    out
}

fn limit_of(args: &MemoryReadArgs) -> (r: usize)
    ensures
        r == page_limit(*args),
        1 <= r <= 100,
{
    match args.limit {
        None => 30,
        Some(n) => if n < 1 {
            1
        } else if n > 100 {
            100
        } else {
            n
        },
    }
}

fn offset_of(args: &MemoryReadArgs) -> (r: usize)
    ensures
        r == page_offset(*args),
{
    match args.offset {
        None => 0,
        Some(n) => n,
    }
}

fn method_of(args: &MemoryReadArgs) -> (r: String)
    ensures
        r@ == browse_method(*args),
{
    match &args.query {
        Some(q) => if q.as_str().is_empty() {
            "confidence_browse".to_owned()
        } else {
            "fts5_bm25".to_owned()
        },
        None => "confidence_browse".to_owned(),
    }
}

fn explain_page(args: &MemoryReadArgs, ms: &Vec<Memory>, offset: usize) -> (r: Explanation)
    requires
        offset + ms@.len() <= u64::MAX,
    ensures
        deep(r@),
        r@ == explanation(
            page_selections(views(ms@), browse_method(*args), offset as int),
            if args.all {
                "all_projects"@
            } else {
                "project_and_global"@
            },
            if args.all {
                None
            } else {
                opt_view(args.project)
            },
        ),
{
    let sels = selections_of(ms, method_of(args).as_str(), offset);
    let mode = if args.all {
        "all_projects"
    } else {
        "project_and_global"
    };
    let project = if args.all {
        None
    } else {
        args.project.clone()
    };
    explain_recall(&sels, mode, project)
}

fn note_of(args: &MemoryReadArgs, shown: usize, total: usize) -> (r: String)
    ensures
        r@ == page_note(*args, shown as nat, total as nat),
{
    let offset: usize = offset_of(args);
    let next: usize = next_page(offset, limit_of(args));
    if next < total {
        more_note(shown, total, offset, next)
    } else if args.query.is_none() {
        top_note(shown)
    } else {
        "".to_owned()
    }
}

fn show_page(args: &MemoryReadArgs, all: &Vec<Memory>, ms: &Vec<Memory>) -> (r: ToolResult)
    requires
        views(ms@) == page(views(all@), page_offset(*args), page_limit(*args)),
        ms@.len() <= 100,
    ensures
        r@ == shown_page(*args, views(all@)),
{
    let limit: usize = limit_of(args);
    let offset: usize = offset_of(args);
    proof {
        assert(views(all@).len() == all@.len());
        assert(views(ms@).len() == ms@.len());
    }
    let total: usize = all.len();
    let next: usize = next_page(offset, limit);
    let has_more = next < total;
    let scope = if args.all {
        "all projects".to_owned()
    } else {
        text_or_else(&args.project, "global")
    };
    let mut text = render_summary_index(ms, scope.as_str());
    text.append(note_of(args, ms.len(), total).as_str());
    let why = if args.explain && ms.len() > 0 {
        proof {
            assert(offset + ms@.len() <= total);
        }
        let e = explain_page(args, ms, offset);
        text.append(format_recall_explanation(&e).as_str());
        Some(e)
    } else {
        None
    };
    let fragments: Vec<FragmentEntry> = mapped(
        ms,
        |m: &Memory| -> (x: FragmentEntry)
            ensures
                x@ == summary_entry(m@)
            { summary_data(m) },
        Ghost(|m: MemoryView| summary_entry(m)),
    );
    let related_graph: Vec<GraphEntry> = Vec::new();
    proof {
        assert(views(related_graph@) =~= Seq::empty());
    }
    let data = ReadData {
        count: ms.len(),
        total: Some(total),
        fragments,
        has_more,
        next_offset: if has_more {
            Some(next)
        } else {
            None
        },
        related_graph,
        recall_explanation: why,
    };
    format_result(text, ToolData::Read(data), args.response_format)
}

fn exec_read_page(
    disp: &mut Dispatcher,
    envelope: &IpcEnvelope,
    args: &MemoryReadArgs,
    hits: &Vec<Hit>,
) -> (r: DomainResult<ToolResult>)
    requires
        old(disp)@.wf(),
        old(disp)@.store.room(100),
    ensures
        final(disp)@.wf(),
        (final(disp)@, answer(r)) == read_page(old(disp)@, *envelope, *args, views(hits@)),
{
    let listed = recall_browse(disp, args, hits);
    let after_date = date_of_arg(&args.after_date);
    let before_date = date_of_arg(&args.before_date);
    let all = select(
        &listed,
        |m: &Memory| -> (b: bool)
            ensures
                b == within_bounds(*args, m@)
            { bounds_hold(args.min_confidence, after_date, before_date, m, Ghost(*args)) },
        Ghost(|m: MemoryView| within_bounds(*args, m)),
    );
    let ms = take_page(&all, offset_of(args), limit_of(args));
    proof {
        assert(views(ms@).len() == ms@.len());
        lemma_room_mono(disp@.store, ms@.len() as int, 100);
    }
    let shown = show_page(args, &all, &ms);
    let ids = collect_ids(&ms);
    match record_access(disp, envelope, &ids, &args.context) {
        Ok(_) => Ok(shown),
        Err(e) => Err(e),
    }
}

/// What `memory_read` answers.
#[verifier::opaque]
pub open spec fn memory_read(
    d: DispatcherView,
    env: IpcEnvelope,
    args: MemoryReadArgs,
    hits: Seq<HitView>,
) -> Outcome {
    if args.id is Some {
        read_one(d, env, args, args.id->0@)
    } else if args.ids is Some && args.ids->0@.len() > 0 {
        read_some(d, env, args, views(args.ids->0@))
    } else {
        read_page(d, env, args, hits)
    }
}

/// How often `memory_read` may step a counter.
pub open spec fn read_load(args: MemoryReadArgs) -> int {
    match args.ids {
        Some(names) => 100 + names@.len() as int,
        None => 100,
    }
}

/// `memory_read`: a memory by its name, several, or a page of them.
pub fn exec_memory_read(
    disp: &mut Dispatcher,
    envelope: &IpcEnvelope,
    args: &MemoryReadArgs,
    hits: &Vec<Hit>,
) -> (r: DomainResult<ToolResult>)
    requires
        old(disp)@.wf(),
        old(disp)@.store.room(read_load(*args)),
    ensures
        final(disp)@.wf(),
        (final(disp)@, answer(r)) == memory_read(old(disp)@, *envelope, *args, views(hits@)),
{
    proof {
        reveal(memory_read);
        lemma_room_mono(disp@.store, 1, read_load(*args));
        lemma_room_mono(disp@.store, 100, read_load(*args));
        if args.ids is Some {
            lemma_room_mono(
                disp@.store,
                args.ids->0@.len() as int,
                read_load(*args),
            );
        }
    }
    if let Some(id) = &args.id {
        return exec_read_one(disp, envelope, args, id.as_str());
    }
    if let Some(ids) = &args.ids {
        if ids.len() > 0 {
            return exec_read_some(disp, envelope, args, ids);
        }
    }
    exec_read_page(disp, envelope, args, hits)
}

} // verus!
