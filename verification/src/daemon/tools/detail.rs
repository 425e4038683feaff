//! Memories written out, in full and in a list.

use crate::canonical::repository::{legacy_id, legacy_name, legacy_name_of, CanonicalRepository};
use crate::daemon::tools::common::{described, description_of, text_or, text_or_else};
use crate::daemon::tools::data::{FragmentEntry, FragmentEntryView};
use crate::dates::{date_of, date_only};
use crate::domain::id::EntityId;
use crate::domain::memory::{Memory, MemorySource, MemoryView};
use crate::domain::relation::{Relation, RelationView};
use crate::domain::score::Score;
use crate::domain::state::StateView;
use crate::double::{lemma_two_40, lemma_two_mono, quotient, ratio, two};
use crate::figures::{as_double, double_of, score_string, score_text};
use crate::lists::{append_each, written};
use crate::text::{dec, decimal, join, joined, same, views};
use vstd::prelude::*;

verus! {

/// How many of five bars a confidence fills.
pub open spec fn bar_count(c: Score) -> nat {
    if c.0 < 0 {
        0
    } else {
        let n = as_double(c).over_by(ratio(1, 5)).rounded();
        if n > 5 {
            5
        } else {
            n
        }
    }
}

/// The bars of a confidence.
pub open spec fn bar_text(n: nat) -> Seq<char> {
    if n == 0 {
        "░░░░░"@
    } else if n == 1 {
        "█░░░░"@
    } else if n == 2 {
        "██░░░"@
    } else if n == 3 {
        "███░░"@
    } else if n == 4 {
        "████░"@
    } else {
        "█████"@
    }
}

fn confidence_bar(c: Score) -> (r: &'static str)
    ensures
        r@ == bar_text(bar_count(c)),
{
    let n: u128 = if c.0 < 0 {
        0
    } else {
        let d = double_of(c);
        let fifth = quotient(1, 5);
        let q = d.divided(fifth);
        proof {
            assert(d.within(1075) && fifth.within(210));
        }
        if q.e > 40 {
            proof {
                lemma_two_mono(40, q.e as nat);
                lemma_two_40();
                let m = q.m as int;
                let t = two(q.e as nat) as int;
                assert(m * t > 5) by (nonlinear_arith)
                    requires
                        m >= 1,
                        t >= 1099511627776,
                ;
            }
            5
        } else {
            q.to_rounded()
        }
    };
    if n == 0 {
        "░░░░░"
    } else if n == 1 {
        "█░░░░"
    } else if n == 2 {
        "██░░░"
    } else if n == 3 {
        "███░░"
    } else if n == 4 {
        "████░"
    } else {
        "█████"
    }
}

/// A text in square brackets.
pub open spec fn bracketed_text(t: Seq<char>) -> Seq<char> {
    "["@ + t + "]"@
}

pub fn bracketed(t: &str) -> (r: String)
    ensures
        r@ == bracketed_text(t@),
{
    let mut out = "[".to_owned();
    out.append(t);
    out.append("]");
    out
}

/// The head of a memory.
pub open spec fn detail_head_text(
    id: Seq<char>,
    bar: Seq<char>,
    icon: Seq<char>,
    scope: Seq<char>,
    title: Seq<char>,
) -> Seq<char> {
    "=== MEMORY FRAGMENT DETAIL ===\nID: ["@ + id + "] "@ + bar + " ("@ + icon + ") "@ + scope + "\nTitle: "@ + title + "\n"@
}

pub fn detail_head(id: &str, bar: &str, icon: &str, scope: &str, title: &str) -> (r: String)
    ensures
        r@ == detail_head_text(id@, bar@, icon@, scope@, title@),
{
    let mut out = "=== MEMORY FRAGMENT DETAIL ===\nID: [".to_owned();
    out.append(id);
    out.append("] ");
    out.append(bar);
    out.append(" (");
    out.append(icon);
    out.append(") ");
    out.append(scope);
    out.append("\nTitle: ");
    out.append(title);
    out.append("\n");
    out
}

/// The summary of a memory.
pub open spec fn summary_part_text(t: Seq<char>) -> Seq<char> {
    "Summary: "@ + t + "\n"@
}

pub fn summary_part(t: &str) -> (r: String)
    ensures
        r@ == summary_part_text(t@),
{
    let mut out = "Summary: ".to_owned();
    out.append(t);
    out.append("\n");
    out
}

/// When a memory was made, and how far it is trusted.
pub open spec fn created_part_text(date: Seq<char>, c: Seq<char>) -> Seq<char> {
    "Created: "@ + date + " | Confidence: "@ + c + "\n"@
}

pub fn created_part(date: &str, c: &str) -> (r: String)
    ensures
        r@ == created_part_text(date@, c@),
{
    let mut out = "Created: ".to_owned();
    out.append(date);
    out.append(" | Confidence: ");
    out.append(c);
    out.append("\n");
    out
}

/// The tags of a memory.
pub open spec fn tags_part_text(t: Seq<char>) -> Seq<char> {
    "Tags: "@ + t + "\n"@
}

pub fn tags_part(t: &str) -> (r: String)
    ensures
        r@ == tags_part_text(t@),
{
    let mut out = "Tags: ".to_owned();
    out.append(t);
    out.append("\n");
    out
}

/// What a memory goes with.
pub open spec fn related_part_text(t: Seq<char>) -> Seq<char> {
    "Related: "@ + t + "\n"@
}

pub fn related_part(t: &str) -> (r: String)
    ensures
        r@ == related_part_text(t@),
{
    let mut out = "Related: ".to_owned();
    out.append(t);
    out.append("\n");
    out
}

/// An edge of a memory.
pub open spec fn edge_part_text(kind: Seq<char>, target: Seq<char>, note: Seq<char>) -> Seq<char> {
    "  "@ + kind + " → ["@ + target + "]"@ + note + "\n"@
}

pub fn edge_part(kind: &str, target: &str, note: &str) -> (r: String)
    ensures
        r@ == edge_part_text(kind@, target@, note@),
{
    let mut out = "  ".to_owned();
    out.append(kind);
    out.append(" → [");
    out.append(target);
    out.append("]");
    out.append(note);
    out.append("\n");
    out
}

/// The note on an edge.
pub open spec fn note_part_text(t: Seq<char>) -> Seq<char> {
    " — "@ + t
}

pub fn note_part(t: &str) -> (r: String)
    ensures
        r@ == note_part_text(t@),
{
    let mut out = " — ".to_owned();
    out.append(t);
    out
}

/// How a memory was judged.
pub open spec fn feedback_part_text(pos: nat, neg: nat) -> Seq<char> {
    "Feedback: "@ + dec(pos) + " positive, "@ + dec(neg) + " negative\n"@
}

pub fn feedback_part(pos: u64, neg: u64) -> (r: String)
    ensures
        r@ == feedback_part_text(pos as nat, neg as nat),
{
    let mut out = "Feedback: ".to_owned();
    out.append(decimal(pos).as_str());
    out.append(" positive, ");
    out.append(decimal(neg).as_str());
    out.append(" negative\n");
    out
}

/// How often a memory was refined.
pub open spec fn refinements_part_text(n: nat) -> Seq<char> {
    "Refinements: "@ + dec(n) + "\n"@
}

pub fn refinements_part(n: u64) -> (r: String)
    ensures
        r@ == refinements_part_text(n as nat),
{
    let mut out = "Refinements: ".to_owned();
    out.append(decimal(n).as_str());
    out.append("\n");
    out
}

/// What a memory was refined from.
pub open spec fn parent_part_text(id: Seq<char>) -> Seq<char> {
    "Refined from: ["@ + id + "]\n"@
}

pub fn parent_part(id: &str) -> (r: String)
    ensures
        r@ == parent_part_text(id@),
{
    let mut out = "Refined from: [".to_owned();
    out.append(id);
    out.append("]\n");
    out
}

/// What a memory was refined into.
pub open spec fn children_part_text(t: Seq<char>) -> Seq<char> {
    "Refined into: "@ + t + "\n"@
}

pub fn children_part(t: &str) -> (r: String)
    ensures
        r@ == children_part_text(t@),
{
    let mut out = "Refined into: ".to_owned();
    out.append(t);
    out.append("\n");
    out
}

/// The text of a memory.
pub open spec fn content_part_text(t: Seq<char>) -> Seq<char> {
    "--- CONTENT ---\n"@ + t + "\n=============="@
}

pub fn content_part(t: &str) -> (r: String)
    ensures
        r@ == content_part_text(t@),
{
    let mut out = "--- CONTENT ---\n".to_owned();
    out.append(t);
    out.append("\n==============");
    out
}

/// The sign of a memory's source.
pub open spec fn source_icon(s: MemorySource) -> Seq<char> {
    if s is Ai {
        "🤖"@
    } else {
        "👤"@
    }
}

/// The note on an edge, if there is one.
pub open spec fn edge_note(note: Option<Seq<char>>) -> Seq<char> {
    match note {
        Some(n) => note_part_text(n),
        None => ""@,
    }
}

/// One edge of a memory.
pub open spec fn edge_line(s: StateView, r: RelationView) -> Seq<char> {
    edge_part_text(r.relation_type.name(), legacy_name_of(s, r.target), edge_note(r.note))
}

/// The edges of a memory.
pub open spec fn edges_text(s: StateView, rs: Seq<RelationView>) -> Seq<char> {
    if rs.len() == 0 {
        ""@
    } else {
        "Relations:\n"@ + written(rs, |r: RelationView| edge_line(s, r))
    }
}

/// The names of identifiers, in brackets.
pub open spec fn bracketed_names(s: StateView, ids: Seq<EntityId>) -> Seq<Seq<char>> {
    ids.map_values(|id: EntityId| bracketed_text(legacy_name_of(s, id)))
}

/// A part that stands only where a condition holds.
pub open spec fn part_if(b: bool, part: Seq<char>) -> Seq<char> {
    if b {
        part
    } else {
        ""@
    }
}

/// A memory in full.
pub open spec fn detail_text(s: StateView, m: MemoryView) -> Seq<char> {
    detail_head_text(
        legacy_name(m),
        bar_text(bar_count(m.confidence)),
        source_icon(m.source),
        bracketed_text(text_or(m.project, "global"@)),
        m.title,
    ) + part_if(
        m.description.len() > 0 && m.description != m.title,
        summary_part_text(m.description),
    ) + created_part_text(date_of(m.created_at.0), score_text(m.confidence)) + part_if(
        m.tags.len() > 0,
        tags_part_text(joined(m.tags, ", "@)),
    ) + part_if(
        m.associated_with.len() > 0,
        related_part_text(joined(m.associated_with, ", "@)),
    ) + edges_text(s, m.relations) + part_if(
        m.positive_feedback > 0 || m.negative_feedback > 0,
        feedback_part_text(m.positive_feedback as nat, m.negative_feedback as nat),
    ) + part_if(
        m.refinement_count > 0,
        refinements_part_text(m.refinement_count as nat),
    ) + (match m.parent_id {
        Some(p) => parent_part_text(legacy_name_of(s, p)),
        None => ""@,
    }) + part_if(
        m.child_ids.len() > 0,
        children_part_text(joined(bracketed_names(s, m.child_ids), ", "@)),
    ) + content_part_text(m.fragment)
}

fn edges_string(repo: &CanonicalRepository, rs: &Vec<Relation>) -> (r: String)
    requires
        repo@.wf(),
    ensures
        r@ == edges_text(repo@, views(rs@)),
{
    proof {
        assert(views(rs@).len() == rs@.len());
    }
    if rs.len() == 0 {
        return "".to_owned();
    }
    let mut out = "Relations:\n".to_owned();
    append_each(
        &mut out,
        rs,
        |e: &Relation| -> (t: String)
            ensures
                t@ == edge_line(repo@, e@)
            {
                let note = match &e.note {
                    Some(n) => note_part(n.as_str()),
                    None => "".to_owned(),
                };
                edge_part(
                    e.relation_type.as_str(),
                    repo.legacy_id_of(e.target).as_str(),
                    note.as_str(),
                )
            },
        Ghost(|e: RelationView| edge_line(repo@, e)),
    );
    out
}

fn bracketed_strings(repo: &CanonicalRepository, ids: &Vec<EntityId>) -> (r: Vec<String>)
    requires
        repo@.wf(),
    ensures
        views(r@) == bracketed_names(repo@, ids@),
{
    let mut out: Vec<String> = Vec::new();
    let mut i: usize = 0;
    while i < ids.len()
        invariant
            i <= ids@.len(),
            repo@.wf(),
            out@.len() == i,
            forall|j: int|
                0 <= j < i ==> (#[trigger] out@[j])@ == bracketed_text(
                    legacy_name_of(repo@, ids@[j]),
                ),
        decreases ids@.len() - i,
    {
        out.push(bracketed(repo.legacy_id_of(ids[i]).as_str()));
        i += 1;
    }
    proof {
        assert(views(out@) =~= bracketed_names(repo@, ids@));
    }
    out
}

/// A memory in full.
pub fn render_detail(repo: &CanonicalRepository, m: &Memory) -> (r: String)
    requires
        repo@.wf(),
    ensures
        r@ == detail_text(repo@, m@),
{
    let scope = bracketed(text_or_else(&m.project, "global").as_str());
    let icon = match m.source {
        MemorySource::Ai => "🤖",
        _ => "👤",
    };
    let mut out = detail_head(
        legacy_id(m).as_str(),
        confidence_bar(m.confidence),
        icon,
        scope.as_str(),
        m.title.as_str(),
    );
    proof {
        assert(views(m.tags@).len() == m.tags@.len());
        assert(views(m.associated_with@).len() == m.associated_with@.len());
    }
    if !m.description.as_str().is_empty() && !same(m.description.as_str(), m.title.as_str()) {
        out.append(summary_part(m.description.as_str()).as_str());
    } else {
        out.append("");
    }
    out.append(
        created_part(
            date_only(m.created_at.0).as_str(),
            score_string(m.confidence).as_str(),
        ).as_str(),
    );
    if m.tags.len() > 0 {
        out.append(tags_part(join(&m.tags, ", ").as_str()).as_str());
    } else {
        out.append("");
    }
    if m.associated_with.len() > 0 {
        out.append(related_part(join(&m.associated_with, ", ").as_str()).as_str());
    } else {
        out.append("");
    }
    out.append(edges_string(repo, &m.relations).as_str());
    if m.positive_feedback > 0 || m.negative_feedback > 0 {
        out.append(feedback_part(m.positive_feedback, m.negative_feedback).as_str());
    } else {
        out.append("");
    }
    if m.refinement_count > 0 {
        out.append(refinements_part(m.refinement_count).as_str());
    } else {
        out.append("");
    }
    match m.parent_id {
        Some(p) => {
            out.append(parent_part(repo.legacy_id_of(p).as_str()).as_str());
        },
        None => {
            out.append("");
        },
    }
    if m.child_ids.len() > 0 {
        let names = bracketed_strings(repo, &m.child_ids);
        out.append(children_part(join(&names, ", ").as_str()).as_str());
    } else {
        out.append("");
    }
    out.append(content_part(m.fragment.as_str()).as_str());
    out
}

/// A memory in a list.
pub open spec fn index_line_text(id: Seq<char>, scope: Seq<char>, title: Seq<char>, summary: Seq<char>) -> Seq<char> {
    "["@ + id + "] ["@ + scope + "] "@ + title + " — "@ + summary + "\n"@
}

pub fn index_line(id: &str, scope: &str, title: &str, summary: &str) -> (r: String)
    ensures
        r@ == index_line_text(id@, scope@, title@, summary@),
{
    let mut out = "[".to_owned();
    out.append(id);
    out.append("] [");
    out.append(scope);
    out.append("] ");
    out.append(title);
    out.append(" — ");
    out.append(summary);
    out.append("\n");
    out
}

/// The head of a list of memories.
pub open spec fn index_head_text(scope: Seq<char>) -> Seq<char> {
    "## Memory Fragments"@ + scope + "\n---\n"@
}

pub fn index_head(scope: &str) -> (r: String)
    ensures
        r@ == index_head_text(scope@),
{
    let mut out = "## Memory Fragments".to_owned();
    out.append(scope);
    out.append("\n---\n");
    out
}

/// The scope of a list.
pub open spec fn scope_part_text(scope: Seq<char>) -> Seq<char> {
    " ("@ + scope + ")"@
}

pub fn scope_part(scope: &str) -> (r: String)
    ensures
        r@ == scope_part_text(scope@),
{
    let mut out = " (".to_owned();
    out.append(scope);
    out.append(")");
    out
}

/// What is said of a memory in a list.
pub open spec fn summary_of(m: MemoryView) -> Seq<char> {
    if m.description.len() == 0 {
        m.title
    } else {
        m.description
    }
}

/// One line of a list of memories.
pub open spec fn index_entry(m: MemoryView) -> Seq<char> {
    index_line_text(legacy_name(m), text_or(m.project, "global"@), m.title, summary_of(m))
}

/// The scope of a list, unless it takes in everything.
pub open spec fn scope_header(scope: Seq<char>) -> Seq<char> {
    if scope == "all projects"@ || scope == "global"@ {
        ""@
    } else {
        scope_part_text(scope)
    }
}

/// Memories in a list.
pub open spec fn summary_index(ms: Seq<MemoryView>, scope: Seq<char>) -> Seq<char> {
    if ms.len() == 0 {
        index_head_text(scope_header(scope)) + "(no fragments)\n---"@
    } else {
        index_head_text(scope_header(scope)) + written(ms, |m: MemoryView| index_entry(m)) + "---"@
    }
}

/// Memories in a list.
pub fn render_summary_index(memories: &Vec<Memory>, scope_info: &str) -> (r: String)
    ensures
        r@ == summary_index(views(memories@), scope_info@),
{
    let header = if same(scope_info, "all projects") || same(scope_info, "global") {
        "".to_owned()
    } else {
        scope_part(scope_info)
    };
    let mut out = index_head(header.as_str());
    proof {
        assert(views(memories@).len() == memories@.len());
    }
    if memories.len() == 0 {
        out.append("(no fragments)\n---");
        return out;
    }
    append_each(
        &mut out,
        memories,
        |m: &Memory| -> (t: String)
            ensures
                t@ == index_entry(m@)
            {
                let summary = if m.description.as_str().is_empty() {
                    m.title.clone()
                } else {
                    m.description.clone()
                };
                index_line(
                    legacy_id(m).as_str(),
                    text_or_else(&m.project, "global").as_str(),
                    m.title.as_str(),
                    summary.as_str(),
                )
            },
        Ghost(|m: MemoryView| index_entry(m)),
    );
    out.append("---");
    out
}

/// A memory as an entry, with its text.
pub open spec fn detail_entry(m: MemoryView) -> FragmentEntryView {
    FragmentEntryView {
        fragment: Some(m.fragment),
        created: Some(m.created_at.0),
        ..summary_entry(m)
    }
}

/// A memory as an entry.
pub open spec fn summary_entry(m: MemoryView) -> FragmentEntryView {
    FragmentEntryView {
        id: legacy_name(m),
        title: m.title,
        description: described(m),
        kind: m.fragment_type.name(),
        confidence: m.confidence,
        project: m.project,
        fragment: None,
        created: None,
    }
}

pub fn summary_data(m: &Memory) -> (r: FragmentEntry)
    ensures
        r@ == summary_entry(m@),
{
    FragmentEntry {
        id: legacy_id(m),
        title: m.title.clone(),
        description: description_of(m),
        kind: m.fragment_type.as_str().to_owned(),
        confidence: m.confidence,
        project: m.project.clone(),
        fragment: None,
        created: None,
    }
}

pub fn detail_data(m: &Memory) -> (r: FragmentEntry)
    ensures
        r@ == detail_entry(m@),
{
    let mut e = summary_data(m);
    e.fragment = Some(m.fragment.clone());
    e.created = Some(m.created_at.0);
    e
}

} // verus!
