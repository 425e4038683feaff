//! What holds of every text that an answer is written in.

use crate::canonical::repository::{legacy_name, legacy_name_of};
use crate::compatibility::lemma::conflicts::{
    conflict_head_text, conflict_line_text, conflict_lines, conflicts_text,
};
use crate::compatibility::lemma::intelligence::{ConflictPairView, ProactiveSuggestionView};
use crate::compatibility::lemma::proactive::{
    action_part, high_line_text, low_line_text, medium_line_text, suggestions_text,
};
use crate::compatibility::lemma::tool_args::SemanticSearchArgs;
use crate::daemon::tools::common::{text_or, title_from, HitView};
use crate::daemon::tools::data::AuditDataView;
use crate::daemon::tools::detail::{
    bar_count, bar_text, bracketed_names, bracketed_text, children_part_text, content_part_text,
    created_part_text, detail_head_text, detail_text, edges_text, feedback_part_text, index_entry,
    index_head_text, parent_part_text, part_if, refinements_part_text, related_part_text,
    scope_header, source_icon, summary_index, summary_part_text, tags_part_text,
};
use crate::daemon::tools::guide_text::{
    contexts_part_text, depends_part_text, detail_start_text, enables_part_text, guide_detail,
    item_line_text, list_part, manual_part_text, rate_part_text, superseded_part_text, tries,
};
use crate::daemon::tools::search::{
    found_for, result_line, search_head_text, search_limit, search_more_text, search_offset,
    semantic_search,
};
use crate::daemon::tools::stats::{audit_head_text, audit_text, issue_line_text};
use crate::daemon::tools::suggest::day_of;
use crate::dates::date_of;
use crate::domain::guide::GuideView;
use crate::domain::memory::MemoryView;
use crate::domain::state::StateView;
use crate::figures::{percent, ratio_text, score_text, short_places};
use crate::lists::{lemma_written_holds, page, written};
use crate::rank::lemma_filter_keeps;
use crate::text::{at, dec, first_chars, joined, lemma_part_self, lemma_part_within, part_of};
use vstd::prelude::*;

verus! {

/// What stands in one of two texts stands in the one after the other.
pub proof fn lemma_part_either(p: Seq<char>, a: Seq<char>, b: Seq<char>)
    requires
        part_of(p, a) || part_of(p, b),
    ensures
        part_of(p, a + b),
{
    let none = Seq::<char>::empty();
    if part_of(p, a) {
        lemma_part_within(p, none, a, b);
        assert(none + a + b =~= a + b);
    } else {
        lemma_part_within(p, a, b, none);
        assert(a + b + none =~= a + b);
    }
}

proof fn lemma_head_tells(
    id: Seq<char>,
    bar: Seq<char>,
    icon: Seq<char>,
    scope: Seq<char>,
    title: Seq<char>,
)
    ensures
        part_of(title, detail_head_text(id, bar, icon, scope, title)),
        part_of("ID: ["@ + id + "] "@, detail_head_text(id, bar, icon, scope, title)),
{
    let t0 = "=== MEMORY FRAGMENT DETAIL ===\nID: ["@ + id + "] "@;
    let name = "ID: ["@ + id + "] "@;
    let lead = "=== MEMORY FRAGMENT DETAIL ===\n"@;
    reveal_strlit("=== MEMORY FRAGMENT DETAIL ===\nID: [");
    reveal_strlit("=== MEMORY FRAGMENT DETAIL ===\n");
    reveal_strlit("ID: [");
    assert("=== MEMORY FRAGMENT DETAIL ===\nID: ["@ =~= lead + "ID: ["@);
    assert(t0 =~= lead + name);
    lemma_part_self(name);
    lemma_part_self(title);
    lemma_part_either(name, lead, name);
    lemma_part_either(name, t0, bar);
    lemma_part_either(name, t0 + bar, " ("@);
    lemma_part_either(name, t0 + bar + " ("@, icon);
    lemma_part_either(name, t0 + bar + " ("@ + icon, ") "@);
    lemma_part_either(name, t0 + bar + " ("@ + icon + ") "@, scope);
    let t1 = t0 + bar + " ("@ + icon + ") "@ + scope;
    lemma_part_either(name, t1, "\nTitle: "@);
    lemma_part_either(name, t1 + "\nTitle: "@, title);
    lemma_part_either(name, t1 + "\nTitle: "@ + title, "\n"@);
    lemma_part_either(title, t1 + "\nTitle: "@, title);
    lemma_part_either(title, t1 + "\nTitle: "@ + title, "\n"@);
}

/// A memory in full is told with its name, its title and its whole text.
pub proof fn law_detail_tells_the_memory(s: StateView, m: MemoryView)
    ensures
        part_of(m.fragment, detail_text(s, m)),
        part_of(m.title, detail_text(s, m)),
        m.external_alias is Some ==> part_of(
            "ID: ["@ + m.external_alias->0 + "] "@,
            detail_text(s, m),
        ),
{
    let id = legacy_name(m);
    let t0 = detail_head_text(
        id,
        bar_text(bar_count(m.confidence)),
        source_icon(m.source),
        bracketed_text(text_or(m.project, "global"@)),
        m.title,
    );
    let p1 = part_if(
        m.description.len() > 0 && m.description != m.title,
        summary_part_text(m.description),
    );
    let p2 = created_part_text(date_of(m.created_at.0), score_text(m.confidence));
    let p3 = part_if(m.tags.len() > 0, tags_part_text(joined(m.tags, ", "@)));
    let p4 = part_if(
        m.associated_with.len() > 0,
        related_part_text(joined(m.associated_with, ", "@)),
    );
    let p5 = edges_text(s, m.relations);
    let p6 = part_if(
        m.positive_feedback > 0 || m.negative_feedback > 0,
        feedback_part_text(m.positive_feedback as nat, m.negative_feedback as nat),
    );
    let p7 = part_if(m.refinement_count > 0, refinements_part_text(m.refinement_count as nat));
    let p8 = match m.parent_id {
        Some(p) => parent_part_text(legacy_name_of(s, p)),
        None => ""@,
    };
    let p9 = part_if(
        m.child_ids.len() > 0,
        children_part_text(joined(bracketed_names(s, m.child_ids), ", "@)),
    );
    let content = content_part_text(m.fragment);
    let text = detail_text(s, m);
    let front = t0 + p1 + p2 + p3 + p4 + p5 + p6 + p7 + p8 + p9;
    assert(text == front + content);
    lemma_part_self(m.fragment);
    lemma_part_within(m.fragment, "--- CONTENT ---\n"@, m.fragment, "\n=============="@);
    lemma_part_either(m.fragment, front, content);
    lemma_head_tells(
        id,
        bar_text(bar_count(m.confidence)),
        source_icon(m.source),
        bracketed_text(text_or(m.project, "global"@)),
        m.title,
    );
    lemma_part_ahead(m.title, t0, p1, p2, p3, p4, p5, p6, p7, p8, p9);
    lemma_part_either(m.title, front, content);
    let name = "ID: ["@ + id + "] "@;
    lemma_part_ahead(name, t0, p1, p2, p3, p4, p5, p6, p7, p8, p9);
    lemma_part_either(name, front, content);
}

proof fn lemma_part_ahead(
    p: Seq<char>,
    t: Seq<char>,
    p1: Seq<char>,
    p2: Seq<char>,
    p3: Seq<char>,
    p4: Seq<char>,
    p5: Seq<char>,
    p6: Seq<char>,
    p7: Seq<char>,
    p8: Seq<char>,
    p9: Seq<char>,
)
    requires
        part_of(p, t),
    ensures
        part_of(p, t + p1 + p2 + p3 + p4 + p5 + p6 + p7 + p8 + p9),
{
    lemma_part_either(p, t, p1);
    lemma_part_either(p, t + p1, p2);
    lemma_part_either(p, t + p1 + p2, p3);
    lemma_part_either(p, t + p1 + p2 + p3, p4);
    lemma_part_either(p, t + p1 + p2 + p3 + p4, p5);
    lemma_part_either(p, t + p1 + p2 + p3 + p4 + p5, p6);
    lemma_part_either(p, t + p1 + p2 + p3 + p4 + p5 + p6, p7);
    lemma_part_either(p, t + p1 + p2 + p3 + p4 + p5 + p6 + p7, p8);
    lemma_part_either(p, t + p1 + p2 + p3 + p4 + p5 + p6 + p7 + p8, p9);
}

/// An index of memories has a line for each, with its name, its project, its
/// title and what it says in short.
pub proof fn law_index_lists_each(ms: Seq<MemoryView>, scope: Seq<char>, i: int)
    requires
        0 <= i < ms.len(),
    ensures
        ms[i].external_alias is Some ==> part_of(
            "["@ + ms[i].external_alias->0 + "] ["@ + (if ms[i].project is Some {
                ms[i].project->0
            } else {
                "global"@
            }) + "] "@ + ms[i].title + " — "@ + (if ms[i].description.len() > 0 {
                ms[i].description
            } else {
                ms[i].title
            }) + "\n"@,
            summary_index(ms, scope),
        ),
{
    let line = |m: MemoryView| index_entry(m);
    lemma_written_holds(ms, line, i);
    let lines = written(ms, line);
    lemma_part_within(index_entry(ms[i]), index_head_text(scope_header(scope)), lines, "---"@);
}

/// Advice is written with its message, marked by how urgent it is, and with the
/// action that it calls for unless it can wait.
pub proof fn law_advice_is_written(list: Seq<ProactiveSuggestionView>, i: int)
    requires
        0 <= i < list.len(),
    ensures
        list[i].priority == "high"@ ==> part_of(
            "  [!] "@ + list[i].message + "\n"@,
            suggestions_text(list),
        ),
        list[i].priority == "medium"@ ==> part_of(
            "  [*] "@ + list[i].message + "\n"@,
            suggestions_text(list),
        ),
        list[i].priority == "low"@ ==> part_of(
            "  [ ] "@ + list[i].message + "\n"@,
            suggestions_text(list),
        ),
        list[i].suggested_action is Some && (list[i].priority == "high"@ || list[i].priority
            == "medium"@) ==> part_of(
            "      → "@ + list[i].suggested_action->0 + "\n"@,
            suggestions_text(list),
        ),
{
    reveal_strlit("high");
    reveal_strlit("medium");
    reveal_strlit("low");
    let x = list[i];
    let is_high = |s: ProactiveSuggestionView| s.priority == "high"@;
    let is_medium = |s: ProactiveSuggestionView| s.priority == "medium"@;
    let is_low = |s: ProactiveSuggestionView| s.priority == "low"@;
    let high_line = |s: ProactiveSuggestionView|
        high_line_text(s.message) + action_part(s.suggested_action);
    let medium_line = |s: ProactiveSuggestionView|
        medium_line_text(s.message) + action_part(s.suggested_action);
    let low_line = |s: ProactiveSuggestionView| low_line_text(s.message);
    let a = written(list.filter(is_high), high_line);
    let b = written(list.filter(is_medium), medium_line);
    let c = written(list.filter(is_low), low_line);
    let head = "\n--- SUGGESTIONS ---\n"@;
    let text = suggestions_text(list);
    assert(text == head + a + b + c + "---\n"@);
    assert(list.contains(x));
    lemma_filter_keeps(list, is_high);
    lemma_filter_keeps(list, is_medium);
    lemma_filter_keeps(list, is_low);
    if is_high(x) {
        assert(list.filter(is_high).contains(x));
        let k = list.filter(is_high).index_of(x);
        lemma_written_holds(list.filter(is_high), high_line, k);
        lemma_part_within(high_line(x), head, a, b + c + "---\n"@);
        assert(text =~= head + a + (b + c + "---\n"@));
        lemma_line_parts(high_line_text(x.message), action_part(x.suggested_action), text);
    }
    if is_medium(x) {
        assert(list.filter(is_medium).contains(x));
        let k = list.filter(is_medium).index_of(x);
        lemma_written_holds(list.filter(is_medium), medium_line, k);
        lemma_part_within(medium_line(x), head + a, b, c + "---\n"@);
        assert(text =~= head + a + b + (c + "---\n"@));
        lemma_line_parts(medium_line_text(x.message), action_part(x.suggested_action), text);
    }
    if is_low(x) {
        assert(list.filter(is_low).contains(x));
        let k = list.filter(is_low).index_of(x);
        lemma_written_holds(list.filter(is_low), low_line, k);
        lemma_part_within(low_line(x), head + a + b, c, "---\n"@);
        assert(text =~= head + a + b + c + "---\n"@);
    }
}

/// A text that holds two texts in a row holds each.
proof fn lemma_line_parts(a: Seq<char>, b: Seq<char>, text: Seq<char>)
    requires
        part_of(a + b, text),
    ensures
        part_of(a, text),
        part_of(b, text),
{
    let ab = a + b;
    let i = choose|i: int| at(text, ab, i);
    let before = text.take(i);
    let after = text.skip(i + ab.len());
    assert(text =~= before + ab + after) by {
        assert(text.subrange(i, i + ab.len()) =~= ab);
        assert forall|k: int| 0 <= k < ab.len() implies text[i + k] == #[trigger] ab[k] by {
            assert(text.subrange(i, i + ab.len())[k] == ab[k]);
        }
    }
    lemma_part_self(a);
    lemma_part_self(b);
    lemma_part_within(a, before, a, b + after);
    assert(before + a + (b + after) =~= text);
    lemma_part_within(b, before + a, b, after);
    assert(before + a + b + after =~= text);
}

/// Each contradiction that is reported is written with its score, both memories
/// and the reason.
pub proof fn law_contradictions_are_written(cs: Seq<ConflictPairView>, i: int)
    requires
        0 <= i < cs.len(),
    ensures
        part_of(
            "  ["@ + short_places(cs[i].overlap_score as nat) + "] ["@ + cs[i].memory_a_id + "] \""@
                + cs[i].memory_a_title + "\" vs ["@ + cs[i].memory_b_id + "] \""@
                + cs[i].memory_b_title + "\"\n    Reason: "@ + cs[i].reason + "\n"@,
            conflicts_text(cs),
        ),
{
    let line = "  ["@ + short_places(cs[i].overlap_score as nat) + "] ["@ + cs[i].memory_a_id + "] \""@
                + cs[i].memory_a_title + "\" vs ["@ + cs[i].memory_b_id + "] \""@
                + cs[i].memory_b_title + "\"\n    Reason: "@ + cs[i].reason + "\n"@;
    lemma_conflict_line(cs, i);
    lemma_part_within(
        line,
        conflict_head_text(cs.len()),
        conflict_lines(cs),
        "\nUse memory_relate with type \"contradicts\" to link these."@,
    );
}

proof fn lemma_conflict_line(cs: Seq<ConflictPairView>, i: int)
    requires
        0 <= i < cs.len(),
    ensures
        part_of(
            "  ["@ + short_places(cs[i].overlap_score as nat) + "] ["@ + cs[i].memory_a_id + "] \""@
                + cs[i].memory_a_title + "\" vs ["@ + cs[i].memory_b_id + "] \""@
                + cs[i].memory_b_title + "\"\n    Reason: "@ + cs[i].reason + "\n"@,
            conflict_lines(cs),
        ),
    decreases cs.len(),
{
    let line = "  ["@ + short_places(cs[i].overlap_score as nat) + "] ["@ + cs[i].memory_a_id + "] \""@
                + cs[i].memory_a_title + "\" vs ["@ + cs[i].memory_b_id + "] \""@
                + cs[i].memory_b_title + "\"\n    Reason: "@ + cs[i].reason + "\n"@;
    let c = cs.last();
    let rest = conflict_lines(cs.drop_last());
    let more = conflict_line_text(
        short_places(c.overlap_score as nat),
        c.memory_a_id,
        c.memory_a_title,
        c.memory_b_id,
        c.memory_b_title,
        c.reason,
    );
    assert(conflict_lines(cs) == rest + more);
    if i < cs.len() - 1 {
        lemma_conflict_line(cs.drop_last(), i);
        lemma_part_either(line, rest, more);
    } else {
        assert(line == more);
        lemma_part_self(line);
        lemma_part_either(line, rest, more);
    }
}

/// Each thing that is found wrong is written, and where nothing is, that.
pub proof fn law_issues_are_written(a: AuditDataView)
    ensures
        forall|i: int|
            0 <= i < a.issues.len() ==> part_of(
                "  ! "@ + (#[trigger] a.issues[i]) + "\n"@,
                audit_text(a),
            ),
        a.issues.len() == 0 ==> part_of("All clear — no issues found.\n"@, audit_text(a)),
{
    let head = audit_head_text(a.total_fragments as nat, a.issues.len());
    let line = |t: Seq<char>| issue_line_text(t);
    assert forall|i: int| 0 <= i < a.issues.len() implies part_of(
        "  ! "@ + (#[trigger] a.issues[i]) + "\n"@,
        audit_text(a),
    ) by {
        lemma_written_holds(a.issues, line, i);
        lemma_part_either(issue_line_text(a.issues[i]), head, written(a.issues, line));
    }
    if a.issues.len() == 0 {
        lemma_part_self("All clear — no issues found.\n"@);
        lemma_part_either(
            "All clear — no issues found.\n"@,
            head,
            "All clear — no issues found.\n"@,
        );
    }
}

/// What was learnt from a guide, and its description, stand in the guide in
/// full.
pub proof fn law_guide_in_full_tells_it_all(g: GuideView)
    ensures
        g.description.len() > 0 ==> part_of(g.description, guide_detail(g)),
        forall|i: int|
            0 <= i < g.learnings.len() ==> part_of(
                "  - "@ + (#[trigger] g.learnings[i]) + "\n"@,
                guide_detail(g),
            ),
        forall|i: int|
            0 <= i < g.anti_patterns.len() ==> part_of(
                "  - "@ + (#[trigger] g.anti_patterns[i]) + "\n"@,
                guide_detail(g),
            ),
        forall|i: int|
            0 <= i < g.pitfalls.len() ==> part_of(
                "  - "@ + (#[trigger] g.pitfalls[i]) + "\n"@,
                guide_detail(g),
            ),
{
    let t0 = detail_start_text(
        g.name,
        g.category,
        g.usage_count as nat,
        text_or(day_of(g.last_used), ""@),
    );
    let p1 = part_if(g.description.len() > 0, manual_part_text(g.description));
    let p2 = part_if(g.contexts.len() > 0, contexts_part_text(joined(g.contexts, ", "@)));
    let p3 = list_part("Learnings:\n"@, g.learnings);
    let p4 = part_if(
        tries(g) > 0,
        rate_part_text(
            ratio_text(g.success_count as nat, tries(g)),
            g.success_count as nat,
            tries(g),
        ),
    );
    let p5 = list_part("Anti-patterns:\n"@, g.anti_patterns);
    let p6 = list_part("Known Pitfalls:\n"@, g.pitfalls);
    let p7 = part_if(g.depends_on.len() > 0, depends_part_text(joined(g.depends_on, ", "@)));
    let p8 = part_if(g.enables.len() > 0, enables_part_text(joined(g.enables, ", "@)));
    let p9 = match g.superseded_by {
        Some(s) => superseded_part_text(s),
        None => ""@,
    };
    let end = "===================="@;
    assert(guide_detail(g) == t0 + p1 + p2 + p3 + p4 + p5 + p6 + p7 + p8 + p9 + end);
    let none = Seq::<char>::empty();
    if g.description.len() > 0 {
        let d = g.description;
        lemma_part_self(d);
        lemma_part_within(
            d,
            "\n=== DESCRIPTION / PROTOCOLS ===\n"@,
            d,
            "\n===============================\n"@,
        );
        lemma_part_either(d, t0, p1);
        lemma_part_ahead(d, t0 + p1, p2, p3, p4, p5, p6, p7, p8, p9, end);
    }
    assert forall|i: int| 0 <= i < g.learnings.len() implies part_of(
        "  - "@ + (#[trigger] g.learnings[i]) + "\n"@,
        guide_detail(g),
    ) by {
        let x = item_line_text(g.learnings[i]);
        lemma_listed("Learnings:\n"@, g.learnings, i);
        lemma_part_either(x, t0 + p1 + p2, p3);
        lemma_part_either(x, t0 + p1 + p2 + p3, p4);
        lemma_part_either(x, t0 + p1 + p2 + p3 + p4, p5);
        lemma_part_either(x, t0 + p1 + p2 + p3 + p4 + p5, p6);
        lemma_part_ends(x, t0 + p1 + p2 + p3 + p4 + p5 + p6, p7, p8, p9, end);
    }
    assert forall|i: int| 0 <= i < g.anti_patterns.len() implies part_of(
        "  - "@ + (#[trigger] g.anti_patterns[i]) + "\n"@,
        guide_detail(g),
    ) by {
        let x = item_line_text(g.anti_patterns[i]);
        lemma_listed("Anti-patterns:\n"@, g.anti_patterns, i);
        lemma_part_either(x, t0 + p1 + p2 + p3 + p4, p5);
        lemma_part_either(x, t0 + p1 + p2 + p3 + p4 + p5, p6);
        lemma_part_ends(x, t0 + p1 + p2 + p3 + p4 + p5 + p6, p7, p8, p9, end);
    }
    assert forall|i: int| 0 <= i < g.pitfalls.len() implies part_of(
        "  - "@ + (#[trigger] g.pitfalls[i]) + "\n"@,
        guide_detail(g),
    ) by {
        let x = item_line_text(g.pitfalls[i]);
        lemma_listed("Known Pitfalls:\n"@, g.pitfalls, i);
        lemma_part_either(x, t0 + p1 + p2 + p3 + p4 + p5, p6);
        lemma_part_ends(x, t0 + p1 + p2 + p3 + p4 + p5 + p6, p7, p8, p9, end);
    }
}

proof fn lemma_listed(head: Seq<char>, list: Seq<Seq<char>>, i: int)
    requires
        0 <= i < list.len(),
    ensures
        part_of(item_line_text(list[i]), list_part(head, list)),
{
    let line = |t: Seq<char>| item_line_text(t);
    lemma_written_holds(list, line, i);
    lemma_part_either(item_line_text(list[i]), head, written(list, line));
}

proof fn lemma_part_ends(
    p: Seq<char>,
    t: Seq<char>,
    p1: Seq<char>,
    p2: Seq<char>,
    p3: Seq<char>,
    p4: Seq<char>,
)
    requires
        part_of(p, t),
    ensures
        part_of(p, t + p1 + p2 + p3 + p4),
{
    lemma_part_either(p, t, p1);
    lemma_part_either(p, t + p1, p2);
    lemma_part_either(p, t + p1 + p2, p3);
    lemma_part_either(p, t + p1 + p2 + p3, p4);
}

/// Each memory on a page of a search has a line in the answer, with its title
/// and the beginning of its text; where there is none, the answer says so.
pub proof fn law_search_results_are_written(
    s: StateView,
    args: SemanticSearchArgs,
    hits: Seq<HitView>,
    i: int,
)
    ensures
        ({
            let all = found_for(s, args, hits);
            let shown = page(all, search_offset(args), search_limit(args));
            let r = semantic_search(s, args, hits);
            &&& shown.len() == 0 ==> r.text == "No semantically similar memories found for: \""@
                + args.query@ + "\""@
            &&& 0 <= i < shown.len() ==> {
                let m = shown[i].memory;
                &&& part_of(m.title, r.text)
                &&& m.fragment.len() <= 100 ==> part_of(m.fragment, r.text)
            }
        }),
{
    reveal(semantic_search);
    let all = found_for(s, args, hits);
    let next = search_offset(args) + search_limit(args);
    let shown = page(all, search_offset(args), search_limit(args));
    if 0 <= i < shown.len() {
        let m = shown[i].memory;
        let text = semantic_search(s, args, hits).text;
        let line = |h: HitView| result_line(h);
        let head = search_head_text(args.query@, shown.len());
        let more = part_if(next < all.len(), search_more_text(next as nat));
        let x = result_line(shown[i]);
        lemma_written_holds(shown, line, i);
        lemma_part_within(x, head, written(shown, line), more);
        assert(text == head + written(shown, line) + more);
        let begin = first_chars(m.fragment, 100);
        let t0 = "  ["@ + dec(percent(shown[i].score)) + "%] ["@ + legacy_name(m) + "] \""@;
        assert(x == t0 + m.title + "\"\n      "@ + begin + "...\n"@);
        lemma_line_parts(t0 + m.title + "\"\n      "@ + begin, "...\n"@, text);
        lemma_line_parts(t0 + m.title + "\"\n      "@, begin, text);
        lemma_line_parts(t0 + m.title, "\"\n      "@, text);
        lemma_line_parts(t0, m.title, text);
    }
}

/// Without a title, a memory bears its text as one if it has at most forty
/// characters, and else the first forty and three dots.
pub proof fn law_title_begins_the_text(fragment: Seq<char>)
    ensures
        fragment.len() <= 40 ==> title_from(fragment) == fragment,
        fragment.len() > 40 ==> title_from(fragment).len() == 43 && title_from(fragment).take(40)
            == fragment.take(40),
{
    reveal_strlit("...");
    if fragment.len() > 40 {
        assert(title_from(fragment).take(40) =~= fragment.take(40));
    }
}

} // verus!
