//! Why memories were recalled.

use crate::canonical::repository::{legacy_id, legacy_name};
use crate::daemon::tools::common::{text_or, text_or_else};
use crate::daemon::tools::data::{
    Citation, CitationView, ExplainedItem, ExplainedItemView, Explanation, ExplanationView,
};
use crate::dates::{iso8601, moment_of};
use crate::domain::memory::{Evidence, EvidenceView, Memory, MemoryView};
use crate::double::{quotient, ratio};
use crate::figures::{short_places, short_places_text};
use crate::lists::{first, mapped, take_first, texts};
use crate::text::{dec, decimal, join, joined, opt_view, same, views};
use vstd::prelude::*;

verus! {

/// A memory that was chosen, as it was before it was read, and how.
#[derive(Debug)]
pub struct Selection {
    pub memory: Memory,
    pub method: String,
    pub rank: Option<u64>,
    pub depth: Option<u32>,
    pub root: Option<String>,
}

/// The content of a selection.
#[verifier::ext_equal]
pub struct SelectionView {
    pub memory: MemoryView,
    pub method: Seq<char>,
    pub rank: Option<u64>,
    pub depth: Option<u32>,
    pub root: Option<Seq<char>>,
}

impl View for Selection {
    type V = SelectionView;

    open spec fn view(&self) -> SelectionView {
        SelectionView {
            memory: self.memory@,
            method: self.method@,
            rank: self.rank,
            depth: self.depth,
            root: opt_view(self.root),
        }
    }
}

/// What a method of recall means, and what its score measures.
pub open spec fn method_meaning(method: Seq<char>) -> (Seq<char>, Option<Seq<char>>) {
    if method == "explicit_id"@ {
        ("Requested by ID; no relevance ranking or project filter was applied."@, None)
    } else if method == "graph_expansion"@ {
        (
            "Reached through stored relations from the requested ID; the graph score includes a depth penalty."@,
            Some("graph_score_with_depth_penalty"@),
        )
    } else if method == "fts5_bm25"@ {
        (
            "Matched the keyword query; ordered by FTS5 BM25 (lower scores rank first)."@,
            Some("bm25_lower_is_better"@),
        )
    } else if method == "confidence_browse"@ {
        (
            "No usable keyword terms; browsed records ordered by stored confidence."@,
            Some("stored_confidence"@),
        )
    } else if method == "substring_fallback"@ {
        (
            "FTS search failed; the fallback matched text with LIKE and ordered by stored confidence."@,
            Some("stored_confidence"@),
        )
    } else if method == "tfidf_cosine"@ {
        (
            "Selected by TF-IDF cosine similarity to the query."@,
            Some("tfidf_cosine_similarity"@),
        )
    } else if method == "hybrid_rrf_mmr"@ {
        (
            "Selected from fused lexical and TF-IDF ranks, adjusted by recall priority and diversity. Display order includes MMR diversity reranking."@,
            Some("hybrid_relevance_before_diversity"@),
        )
    } else {
        (""@, None)
    }
}

pub fn method_info(method: &str) -> (r: (&'static str, Option<&'static str>))
    ensures
        r.0@ == method_meaning(method@).0,
        crate::text::opt_str(r.1) == method_meaning(method@).1,
{
    if same(method, "explicit_id") {
        ("Requested by ID; no relevance ranking or project filter was applied.", None)
    } else if same(method, "graph_expansion") {
        (
            "Reached through stored relations from the requested ID; the graph score includes a depth penalty.",
            Some("graph_score_with_depth_penalty"),
        )
    } else if same(method, "fts5_bm25") {
        (
            "Matched the keyword query; ordered by FTS5 BM25 (lower scores rank first).",
            Some("bm25_lower_is_better"),
        )
    } else if same(method, "confidence_browse") {
        (
            "No usable keyword terms; browsed records ordered by stored confidence.",
            Some("stored_confidence"),
        )
    } else if same(method, "substring_fallback") {
        (
            "FTS search failed; the fallback matched text with LIKE and ordered by stored confidence.",
            Some("stored_confidence"),
        )
    } else if same(method, "tfidf_cosine") {
        ("Selected by TF-IDF cosine similarity to the query.", Some("tfidf_cosine_similarity"))
    } else if same(method, "hybrid_rrf_mmr") {
        (
            "Selected from fused lexical and TF-IDF ranks, adjusted by recall priority and diversity. Display order includes MMR diversity reranking.",
            Some("hybrid_relevance_before_diversity"),
        )
    } else {
        ("", None)
    }
}

/// A piece of evidence as it is cited.
pub open spec fn cited(e: EvidenceView, recorded_at: Seq<char>) -> CitationView {
    CitationView { file: e.file, symbol: e.symbol, recorded_at }
}

/// When something was last read, as text.
pub open spec fn read_at(t: Option<crate::domain::memory::Instant>) -> Option<Seq<char>> {
    match t {
        Some(x) => Some(moment_of(x.0)),
        None => None,
    }
}

/// Why a memory was recalled. At most five pieces of evidence are cited.
pub open spec fn explained(sel: SelectionView) -> ExplainedItemView {
    let m = sel.memory;
    let recorded = moment_of(m.created_at.0);
    ExplainedItemView {
        id: legacy_name(m),
        method: sel.method,
        reason: method_meaning(sel.method).0,
        rank: sel.rank,
        depth: sel.depth,
        score_kind: method_meaning(sel.method).1,
        graph_root: sel.root,
        recorded_source: m.source.name(),
        created_at: recorded,
        project: m.project,
        session_id: m.session_id,
        confidence: m.confidence,
        last_accessed: read_at(m.last_accessed_at),
        citations: first(m.evidence, 5).map_values(|e: EvidenceView| cited(e, recorded)),
        status: if m.evidence.len() == 0 {
            "no_evidence"@
        } else {
            "not_checked"@
        },
        citations_truncated: m.evidence.len() > 5,
    }
}

fn explain_one(sel: &Selection) -> (r: ExplainedItem)
    ensures
        r@ == explained(sel@),
{
    let m = &sel.memory;
    let (reason, kind) = method_info(sel.method.as_str());
    let recorded = iso8601(m.created_at.0);
    let ghost at = recorded@;
    proof {
        assert(views(m.evidence@).len() == m.evidence@.len());
    }
    let citations: Vec<Citation> = mapped(
        &take_first(&m.evidence, 5),
        |e: &Evidence| -> (c: Citation)
            ensures
                c@ == cited(e@, at)
            {
                Citation {
                    file: e.file.clone(),
                    symbol: e.symbol.clone(),
                    recorded_at: recorded.clone(),
                }
            },
        Ghost(|e: EvidenceView| cited(e, at)),
    );
    ExplainedItem {
        id: legacy_id(m),
        method: sel.method.clone(),
        reason: reason.to_owned(),
        rank: sel.rank,
        depth: sel.depth,
        score_kind: match kind {
            Some(k) => Some(k.to_owned()),
            None => None,
        },
        graph_root: sel.root.clone(),
        recorded_source: m.source.as_str().to_owned(),
        created_at: iso8601(m.created_at.0),
        project: m.project.clone(),
        session_id: m.session_id.clone(),
        confidence: m.confidence,
        last_accessed: match m.last_accessed_at {
            Some(t) => Some(iso8601(t.0)),
            None => None,
        },
        citations,
        status: if m.evidence.len() == 0 {
            "no_evidence".to_owned()
        } else {
            "not_checked".to_owned()
        },
        citations_truncated: m.evidence.len() > 5,
    }
}

/// Why the memories of a call were recalled.
pub open spec fn explanation(
    sels: Seq<SelectionView>,
    mode: Seq<char>,
    project: Option<Seq<char>>,
) -> ExplanationView {
    ExplanationView { mode, project, items: sels.map_values(|s: SelectionView| explained(s)) }
}

pub fn explain_recall(selections: &Vec<Selection>, mode: &str, project: Option<String>) -> (r:
    Explanation)
    ensures
        r@ == explanation(views(selections@), mode@, opt_view(project)),
{
    let items: Vec<ExplainedItem> = mapped(
        selections,
        |s: &Selection| -> (x: ExplainedItem)
            ensures
                x@ == explained(s@)
            { explain_one(s) },
        Ghost(|s: SelectionView| explained(s)),
    );
    Explanation { mode: mode.to_owned(), project, items }
}

/// What is to be borne in mind.
pub const NOTICE: &'static str = "Explains this call, not a past recall. Scores, access times and source labels are not proof of correctness. Evidence checks only test whether cited snippets are present; at most five citations per record are checked, and only when verification.stale_check is enabled.";

/// A rank.
pub open spec fn rank_part_text(n: nat) -> Seq<char> {
    " Rank "@ + dec(n) + "."@
}

pub fn rank_part(n: u64) -> (r: String)
    ensures
        r@ == rank_part_text(n as nat),
{
    let mut out = " Rank ".to_owned();
    out.append(decimal(n).as_str());
    out.append(".");
    out
}

/// A score and what it measures.
pub open spec fn score_part_text(score: Seq<char>, kind: Seq<char>) -> Seq<char> {
    " Score "@ + score + " ("@ + kind + ")."@
}

pub fn score_part(score: &str, kind: &str) -> (r: String)
    ensures
        r@ == score_part_text(score@, kind@),
{
    let mut out = " Score ".to_owned();
    out.append(score);
    out.append(" (");
    out.append(kind);
    out.append(").");
    out
}

/// Where the way over the edges began.
pub open spec fn graph_part_text(root: Seq<char>, depth: nat) -> Seq<char> {
    " Root: "@ + root + ", depth: "@ + dec(depth) + "."@
}

pub fn graph_part(root: &str, depth: u64) -> (r: String)
    ensures
        r@ == graph_part_text(root@, depth as nat),
{
    let mut out = " Root: ".to_owned();
    out.append(root);
    out.append(", depth: ");
    out.append(decimal(depth).as_str());
    out.append(".");
    out
}

/// A file and a symbol in it.
pub open spec fn symbol_part_text(file: Seq<char>, symbol: Seq<char>) -> Seq<char> {
    file + " ("@ + symbol + ")"@
}

pub fn symbol_part(file: &str, symbol: &str) -> (r: String)
    ensures
        r@ == symbol_part_text(file@, symbol@),
{
    let mut out = file.to_owned();
    out.append(" (");
    out.append(symbol);
    out.append(")");
    out
}

/// Why a memory was recalled.
pub open spec fn explain_line_text(
    id: Seq<char>,
    reason: Seq<char>,
    rank: Seq<char>,
    score: Seq<char>,
    graph: Seq<char>,
    source: Seq<char>,
    project: Seq<char>,
    created: Seq<char>,
    evidence: Seq<char>,
    status: Seq<char>,
    truncated: Seq<char>,
) -> Seq<char> {
    "- ["@ + id + "] "@ + reason + rank + score + graph + "\n  Source label: "@ + source + ". project: "@ + project + ". created: "@ + created + ". Evidence: "@ + evidence + ". Status: "@ + status + truncated
}

pub fn explain_line(
    id: &str,
    reason: &str,
    rank: &str,
    score: &str,
    graph: &str,
    source: &str,
    project: &str,
    created: &str,
    evidence: &str,
    status: &str,
    truncated: &str,
) -> (r: String)
    ensures
        r@ == explain_line_text(id@, reason@, rank@, score@, graph@, source@, project@, created@, evidence@, status@, truncated@),
{
    let mut out = "- [".to_owned();
    out.append(id);
    out.append("] ");
    out.append(reason);
    out.append(rank);
    out.append(score);
    out.append(graph);
    out.append("\n  Source label: ");
    out.append(source);
    out.append(". project: ");
    out.append(project);
    out.append(". created: ");
    out.append(created);
    out.append(". Evidence: ");
    out.append(evidence);
    out.append(". Status: ");
    out.append(status);
    out.append(truncated);
    out
}

/// Why the memories of a call were recalled.
pub open spec fn explain_block_text(lines: Seq<char>, notice: Seq<char>) -> Seq<char> {
    "\n\n## Why these memories?\n"@ + lines + "\n"@ + notice + "\nTo correct: memory_update; to hide outdated knowledge reversibly: memory_forget invalidate=true; to link a replacement: memory_relate supersedes. Review before changing records."@
}

pub fn explain_block(lines: &str, notice: &str) -> (r: String)
    ensures
        r@ == explain_block_text(lines@, notice@),
{
    let mut out = "\n\n## Why these memories?\n".to_owned();
    out.append(lines);
    out.append("\n");
    out.append(notice);
    out.append("\nTo correct: memory_update; to hide outdated knowledge reversibly: memory_forget invalidate=true; to link a replacement: memory_relate supersedes. Review before changing records.");
    out
}

/// One divided by a depth.
pub open spec fn depth_score(depth: u32) -> Seq<char> {
    short_places(ratio(1, depth as nat).hundredths())
}

/// The file that is cited, and the symbol in it.
pub open spec fn citation_text(c: CitationView) -> Seq<char> {
    match c.symbol {
        Some(s) => symbol_part_text(c.file, s),
        None => c.file,
    }
}

/// The evidence that is cited.
pub open spec fn evidence_text(cs: Seq<CitationView>) -> Seq<char> {
    if cs.len() == 0 {
        "no citations"@
    } else {
        joined(cs.map_values(|c: CitationView| citation_text(c)), ", "@)
    }
}

pub open spec fn rank_text(rank: Option<u64>) -> Seq<char> {
    match rank {
        Some(n) => rank_part_text(n as nat),
        None => ""@,
    }
}

pub open spec fn item_score_text(i: ExplainedItemView) -> Seq<char> {
    match (i.depth, i.score_kind) {
        (Some(d), Some(k)) => score_part_text(depth_score(d), k),
        _ => ""@,
    }
}

pub open spec fn item_graph_text(i: ExplainedItemView) -> Seq<char> {
    match (i.graph_root, i.depth) {
        (Some(root), Some(d)) => graph_part_text(root, d as nat),
        _ => ""@,
    }
}

/// One line of an explanation.
pub open spec fn item_text(i: ExplainedItemView) -> Seq<char> {
    explain_line_text(
        i.id,
        i.reason,
        rank_text(i.rank),
        item_score_text(i),
        item_graph_text(i),
        i.recorded_source,
        text_or(i.project, "global"@),
        i.created_at,
        evidence_text(i.citations),
        i.status,
        if i.citations_truncated {
            " (first five citations only)"@
        } else {
            ""@
        },
    )
}

/// An explanation as text.
pub open spec fn explanation_text(e: ExplanationView) -> Seq<char> {
    explain_block_text(
        joined(e.items.map_values(|i: ExplainedItemView| item_text(i)), "\n"@),
        NOTICE@,
    )
}

fn rank_string(rank: Option<u64>) -> (r: String)
    ensures
        r@ == rank_text(rank),
{
    match rank {
        Some(n) => rank_part(n),
        None => "".to_owned(),
    }
}

fn depth_score_string(depth: u32) -> (r: String)
    requires
        depth > 0,
    ensures
        r@ == depth_score(depth),
{
    short_places_text(quotient(1, depth as u128).to_hundredths())
}

fn evidence_string(cs: &Vec<Citation>) -> (r: String)
    ensures
        r@ == evidence_text(views(cs@)),
{
    proof {
        assert(views(cs@).len() == cs@.len());
    }
    if cs.len() == 0 {
        return "no citations".to_owned();
    }
    let list = texts(
        cs,
        |c: &Citation| -> (t: String)
            ensures
                t@ == citation_text(c@)
            {
                match &c.symbol {
                    Some(s) => symbol_part(c.file.as_str(), s.as_str()),
                    None => c.file.clone(),
                }
            },
        Ghost(|c: CitationView| citation_text(c)),
    );
    join(&list, ", ")
}

fn item_string(i: &ExplainedItem) -> (r: String)
    ensures
        i@.depth != Some(0u32) ==> r@ == item_text(i@),
{
    let score = match (i.depth, &i.score_kind) {
        (Some(d), Some(k)) => if d > 0 {
            score_part(depth_score_string(d).as_str(), k.as_str())
        } else {
            "".to_owned()
        },
        _ => "".to_owned(),
    };
    let graph = match (&i.graph_root, i.depth) {
        (Some(root), Some(d)) => graph_part(root.as_str(), d as u64),
        _ => "".to_owned(),
    };
    explain_line(
        i.id.as_str(),
        i.reason.as_str(),
        rank_string(i.rank).as_str(),
        score.as_str(),
        graph.as_str(),
        i.recorded_source.as_str(),
        text_or_else(&i.project, "global").as_str(),
        i.created_at.as_str(),
        evidence_string(&i.citations).as_str(),
        i.status.as_str(),
        if i.citations_truncated {
            " (first five citations only)"
        } else {
            ""
        },
    )
}

/// Whether every depth of an explanation is at least one.
pub open spec fn deep(e: ExplanationView) -> bool {
    forall|j: int| 0 <= j < e.items.len() ==> (#[trigger] e.items[j]).depth != Some(0u32)
}

/// An explanation as text. No memory is reached at depth zero.
pub fn format_recall_explanation(e: &Explanation) -> (r: String)
    requires
        deep(e@),
    ensures
        r@ == explanation_text(e@),
{
    let ghost vs = e@.items;
    let mut lines: Vec<String> = Vec::new();
    let mut i: usize = 0;
    while i < e.items.len()
        invariant
            i <= e.items@.len(),
            vs == views(e.items@),
            deep(e@),
            vs == e@.items,
            lines@.len() == i,
            forall|j: int| 0 <= j < i ==> (#[trigger] lines@[j])@ == item_text(vs[j]),
        decreases e.items@.len() - i,
    {
        proof {
            assert(vs[i as int] == e.items@[i as int]@);
        }
        lines.push(item_string(&e.items[i]));
        i += 1;
    }
    proof {
        assert(views(lines@) =~= vs.map_values(|i: ExplainedItemView| item_text(i)));
    }
    explain_block(join(&lines, "\n").as_str(), NOTICE)
}

} // verus!
