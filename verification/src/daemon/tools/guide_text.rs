//! Guides: how they are made, and how they are shown.

use crate::canonical::repository::{guide_key, key_of_guide};
use crate::daemon::tools::common::{text_or, text_or_else};
use crate::daemon::tools::data::{GuideEntry, GuideEntryView};
use crate::daemon::tools::detail::part_if;
use crate::daemon::tools::suggest::{day_from, day_of};
use crate::domain::guide::{Guide, GuideView};
use crate::domain::id::EntityRevision;
use crate::domain::memory::Instant;
use crate::figures::{ratio_string, ratio_text};
use crate::lists::{append_each, select, texts, written};
use crate::text::{
    clone_all, dec, decimal, equal_fold, eq_fold, join, joined, same, trim, trimmed, views,
};
use vstd::prelude::*;

verus! {

// ---------------------------------------------------------------------------
// Lists of texts
// ---------------------------------------------------------------------------

/// The texts of a list as keys, without those that are empty.
pub open spec fn cleaned(list: Seq<Seq<char>>) -> Seq<Seq<char>> {
    list.map_values(|t: Seq<char>| guide_key(t)).filter(|t: Seq<char>| t.len() > 0)
}

pub fn clean_keys(list: &Vec<String>) -> (r: Vec<String>)
    ensures
        views(r@) == cleaned(views(list@)),
{
    let keys = texts(
        list,
        |t: &String| -> (k: String)
            ensures
                k@ == guide_key(t@)
            { key_of_guide(t.as_str()) },
        Ghost(|t: Seq<char>| guide_key(t)),
    );
    select(
        &keys,
        |t: &String| -> (b: bool)
            ensures
                b == (t@.len() > 0)
            { !t.as_str().is_empty() },
        Ghost(|t: Seq<char>| t.len() > 0),
    )
}

/// The texts of a list, trimmed, without those that are empty.
pub open spec fn trimmed_all(list: Seq<Seq<char>>) -> Seq<Seq<char>> {
    list.map_values(|t: Seq<char>| trimmed(t)).filter(|t: Seq<char>| t.len() > 0)
}

pub fn trim_all(list: &Vec<String>) -> (r: Vec<String>)
    ensures
        views(r@) == trimmed_all(views(list@)),
{
    let all = texts(
        list,
        |t: &String| -> (k: String)
            ensures
                k@ == trimmed(t@)
            { trim(t.as_str()) },
        Ghost(|t: Seq<char>| trimmed(t)),
    );
    select(
        &all,
        |t: &String| -> (b: bool)
            ensures
                b == (t@.len() > 0)
            { !t.as_str().is_empty() },
        Ghost(|t: Seq<char>| t.len() > 0),
    )
}

/// Whether a list holds a text, but for the case of ASCII letters.
pub open spec fn holds_folded(list: Seq<Seq<char>>, t: Seq<char>) -> bool {
    exists|i: int| 0 <= i < list.len() && eq_fold(#[trigger] list[i], t)
}

pub fn has_folded(list: &Vec<String>, t: &str) -> (r: bool)
    ensures
        r == holds_folded(views(list@), t@),
{
    let ghost vs = views(list@);
    let mut i: usize = 0;
    while i < list.len()
        invariant
            i <= list@.len(),
            vs == views(list@),
            forall|j: int| 0 <= j < i ==> !eq_fold(#[trigger] vs[j], t@),
        decreases list@.len() - i,
    {
        proof {
            assert(vs[i as int] == list@[i as int]@);
        }
        if equal_fold(list[i].as_str(), t) {
            return true;
        }
        i += 1;
    }
    false
}

/// A list with the keys of texts added, but for those that are empty, equal to
/// `except`, or there already.
pub open spec fn with_keys(list: Seq<Seq<char>>, add: Seq<Seq<char>>, except: Seq<char>) -> Seq<
    Seq<char>,
>
    decreases add.len(),
{
    if add.len() == 0 {
        list
    } else {
        let rest = with_keys(list, add.drop_last(), except);
        let key = guide_key(add.last());
        if key.len() == 0 || key == except || holds_folded(rest, key) {
            rest
        } else {
            rest.push(key)
        }
    }
}

pub fn merge_guide_refs(list: &Vec<String>, add: &Vec<String>, except: &str) -> (r: Vec<String>)
    ensures
        views(r@) == with_keys(views(list@), views(add@), except@),
{
    let ghost start = views(list@);
    let ghost vs = views(add@);
    let mut out = clone_all(list);
    let mut i: usize = 0;
    proof {
        assert(vs.take(0) =~= Seq::empty());
    }
    while i < add.len()
        invariant
            i <= add@.len(),
            vs == views(add@),
            views(out@) == with_keys(start, vs.take(i as int), except@),
        decreases add@.len() - i,
    {
        broadcast use crate::text::lemma_views_push;

        proof {
            let t = vs.take(i + 1);
            assert(t.drop_last() =~= vs.take(i as int));
            assert(t.last() == add@[i as int]@);
        }
        let key = key_of_guide(add[i].as_str());
        if !(key.as_str().is_empty() || same(key.as_str(), except) || has_folded(
            &out,
            key.as_str(),
        )) {
            out.push(key);
        }
        i += 1;
    }
    proof {
        assert(vs.take(vs.len() as int) =~= vs);
    }
    out
}

// ---------------------------------------------------------------------------
// New guides
// ---------------------------------------------------------------------------

/// A new guide, used once.
pub open spec fn made_guide(
    name: Seq<char>,
    category: Seq<char>,
    description: Seq<char>,
    contexts: Seq<Seq<char>>,
    learnings: Seq<Seq<char>>,
    now: u64,
) -> GuideView {
    GuideView {
        name: guide_key(name),
        category: guide_key(category),
        description: trimmed(description),
        contexts: cleaned(contexts),
        learnings: trimmed_all(learnings),
        usage_count: 1,
        last_used: Some(Instant(now)),
        success_count: 0,
        failure_count: 0,
        anti_patterns: Seq::empty(),
        pitfalls: Seq::empty(),
        depends_on: Seq::empty(),
        enables: Seq::empty(),
        source_memories: Seq::empty(),
        validated_by: Seq::empty(),
        superseded_by: None,
        deprecated: false,
        entity_revision: EntityRevision(1),
        created_at: Instant(now),
        updated_at: Instant(now),
    }
}

/// A new guide, used once.
pub fn create_guide(
    name: &str,
    category: &str,
    description: &str,
    contexts: &Vec<String>,
    learnings: &Vec<String>,
    now: u64,
) -> (r: Guide)
    ensures
        r@ == made_guide(
            name@,
            category@,
            description@,
            views(contexts@),
            views(learnings@),
            now,
        ),
{
    let r = Guide {
        name: key_of_guide(name),
        category: key_of_guide(category),
        description: trim(description),
        contexts: clean_keys(contexts),
        learnings: trim_all(learnings),
        usage_count: 1,
        last_used: Some(Instant::new(now)),
        success_count: 0,
        failure_count: 0,
        anti_patterns: Vec::new(),
        pitfalls: Vec::new(),
        depends_on: Vec::new(),
        enables: Vec::new(),
        source_memories: Vec::new(),
        validated_by: Vec::new(),
        superseded_by: None,
        deprecated: false,
        entity_revision: EntityRevision::new(1),
        created_at: Instant::new(now),
        updated_at: Instant::new(now),
    };
    proof {
        assert(r@ =~= made_guide(
            name@,
            category@,
            description@,
            views(contexts@),
            views(learnings@),
            now,
        ));
    }
    r
}

// ---------------------------------------------------------------------------
// As text
// ---------------------------------------------------------------------------

/// The head of a guide.
pub open spec fn detail_start_text(name: Seq<char>, category: Seq<char>, n: nat, day: Seq<char>) -> Seq<char> {
    "=== GUIDE: "@ + name + " ===\nCategory: "@ + category + "\nUsage Count: "@ + dec(n) + "\nLast Used: "@ + day + "\n"@
}

pub fn detail_start(name: &str, category: &str, n: u64, day: &str) -> (r: String)
    ensures
        r@ == detail_start_text(name@, category@, n as nat, day@),
{
    let mut out = "=== GUIDE: ".to_owned();
    out.append(name);
    out.append(" ===\nCategory: ");
    out.append(category);
    out.append("\nUsage Count: ");
    out.append(decimal(n).as_str());
    out.append("\nLast Used: ");
    out.append(day);
    out.append("\n");
    out
}

/// Its protocol.
pub open spec fn manual_part_text(d: Seq<char>) -> Seq<char> {
    "\n=== DESCRIPTION / PROTOCOLS ===\n"@ + d + "\n===============================\n"@
}

pub fn manual_part(d: &str) -> (r: String)
    ensures
        r@ == manual_part_text(d@),
{
    let mut out = "\n=== DESCRIPTION / PROTOCOLS ===\n".to_owned();
    out.append(d);
    out.append("\n===============================\n");
    out
}

/// Where it is used.
pub open spec fn contexts_part_text(list: Seq<char>) -> Seq<char> {
    "Contexts: "@ + list + "\n"@
}

pub fn contexts_part(list: &str) -> (r: String)
    ensures
        r@ == contexts_part_text(list@),
{
    let mut out = "Contexts: ".to_owned();
    out.append(list);
    out.append("\n");
    out
}

/// One entry of a list.
pub open spec fn item_line_text(t: Seq<char>) -> Seq<char> {
    "  - "@ + t + "\n"@
}

pub fn item_line(t: &str) -> (r: String)
    ensures
        r@ == item_line_text(t@),
{
    let mut out = "  - ".to_owned();
    out.append(t);
    out.append("\n");
    out
}

/// How it has fared.
pub open spec fn rate_part_text(rate: Seq<char>, n: nat, all: nat) -> Seq<char> {
    "Success Rate: "@ + rate + " ("@ + dec(n) + "/"@ + dec(all) + ")\n"@
}

pub fn rate_part(rate: &str, n: u64, all: u64) -> (r: String)
    ensures
        r@ == rate_part_text(rate@, n as nat, all as nat),
{
    let mut out = "Success Rate: ".to_owned();
    out.append(rate);
    out.append(" (");
    out.append(decimal(n).as_str());
    out.append("/");
    out.append(decimal(all).as_str());
    out.append(")\n");
    out
}

/// What it needs.
pub open spec fn depends_part_text(list: Seq<char>) -> Seq<char> {
    "Depends on: "@ + list + "\n"@
}

pub fn depends_part(list: &str) -> (r: String)
    ensures
        r@ == depends_part_text(list@),
{
    let mut out = "Depends on: ".to_owned();
    out.append(list);
    out.append("\n");
    out
}

/// What it makes possible.
pub open spec fn enables_part_text(list: Seq<char>) -> Seq<char> {
    "Enables: "@ + list + "\n"@
}

pub fn enables_part(list: &str) -> (r: String)
    ensures
        r@ == enables_part_text(list@),
{
    let mut out = "Enables: ".to_owned();
    out.append(list);
    out.append("\n");
    out
}

/// What took its place.
pub open spec fn superseded_part_text(name: Seq<char>) -> Seq<char> {
    "Superseded by: "@ + name + "\n"@
}

pub fn superseded_part(name: &str) -> (r: String)
    ensures
        r@ == superseded_part_text(name@),
{
    let mut out = "Superseded by: ".to_owned();
    out.append(name);
    out.append("\n");
    out
}

/// A list under a head, if it is not empty.
pub open spec fn list_part(head: Seq<char>, list: Seq<Seq<char>>) -> Seq<char> {
    part_if(list.len() > 0, head + written(list, |t: Seq<char>| item_line_text(t)))
}

fn append_list(out: &mut String, head: &str, list: &Vec<String>)
    ensures
        final(out)@ == old(out)@ + list_part(head@, views(list@)),
{
    proof {
        assert(views(list@).len() == list@.len());
    }
    if list.len() > 0 {
        let mut part = head.to_owned();
        append_each(
            &mut part,
            list,
            |t: &String| -> (s: String)
                ensures
                    s@ == item_line_text(t@)
                { item_line(t.as_str()) },
            Ghost(|t: Seq<char>| item_line_text(t)),
        );
        out.append(part.as_str());
    } else {
        out.append("");
    }
}

/// How often a guide was tried.
pub open spec fn tries(g: GuideView) -> nat {
    (g.success_count + g.failure_count) as nat
}

pub fn tries_of(g: &Guide) -> (r: u64)
    ensures
        r == tries(g@),
{
    g.success_count as u64 + g.failure_count as u64
}

/// A guide in full.
pub open spec fn guide_detail(g: GuideView) -> Seq<char> {
    detail_start_text(
        g.name,
        g.category,
        g.usage_count as nat,
        text_or(day_of(g.last_used), ""@),
    ) + part_if(g.description.len() > 0, manual_part_text(g.description)) + part_if(
        g.contexts.len() > 0,
        contexts_part_text(joined(g.contexts, ", "@)),
    ) + list_part("Learnings:\n"@, g.learnings) + part_if(
        tries(g) > 0,
        rate_part_text(
            ratio_text(g.success_count as nat, tries(g)),
            g.success_count as nat,
            tries(g),
        ),
    ) + list_part("Anti-patterns:\n"@, g.anti_patterns) + list_part(
        "Known Pitfalls:\n"@,
        g.pitfalls,
    ) + part_if(g.depends_on.len() > 0, depends_part_text(joined(g.depends_on, ", "@))) + part_if(
        g.enables.len() > 0,
        enables_part_text(joined(g.enables, ", "@)),
    ) + (match g.superseded_by {
        Some(s) => superseded_part_text(s),
        None => ""@,
    }) + "===================="@
}

/// A guide in full.
pub fn format_guide_detail(guide: &Guide) -> (r: String)
    ensures
        r@ == guide_detail(guide@),
{
    proof {
        assert(views(guide.contexts@).len() == guide.contexts@.len());
        assert(views(guide.depends_on@).len() == guide.depends_on@.len());
        assert(views(guide.enables@).len() == guide.enables@.len());
    }
    let mut out = detail_start(
        guide.name.as_str(),
        guide.category.as_str(),
        guide.usage_count as u64,
        text_or_else(&day_from(guide.last_used), "").as_str(),
    );
    if guide.description.as_str().is_empty() {
        out.append("");
    } else {
        out.append(manual_part(guide.description.as_str()).as_str());
    }
    if guide.contexts.len() > 0 {
        out.append(contexts_part(join(&guide.contexts, ", ").as_str()).as_str());
    } else {
        out.append("");
    }
    append_list(&mut out, "Learnings:\n", &guide.learnings);
    let all: u64 = tries_of(guide);
    if all > 0 {
        let rate = ratio_string(guide.success_count as u64, all);
        out.append(rate_part(rate.as_str(), guide.success_count as u64, all).as_str());
    } else {
        out.append("");
    }
    append_list(&mut out, "Anti-patterns:\n", &guide.anti_patterns);
    append_list(&mut out, "Known Pitfalls:\n", &guide.pitfalls);
    if guide.depends_on.len() > 0 {
        out.append(depends_part(join(&guide.depends_on, ", ").as_str()).as_str());
    } else {
        out.append("");
    }
    if guide.enables.len() > 0 {
        out.append(enables_part(join(&guide.enables, ", ").as_str()).as_str());
    } else {
        out.append("");
    }
    match &guide.superseded_by {
        Some(s) => {
            out.append(superseded_part(s.as_str()).as_str());
        },
        None => {
            out.append("");
        },
    }
    out.append("====================");
    out
}

/// A guide as an entry.
pub open spec fn guide_entry(g: GuideView) -> GuideEntryView {
    GuideEntryView {
        guide: g.name,
        category: g.category,
        description: g.description,
        usage_count: g.usage_count,
        last_used: day_of(g.last_used),
        success_count: g.success_count,
        failure_count: g.failure_count,
        contexts: g.contexts,
        learnings: g.learnings,
    }
}

pub fn guide_json(g: &Guide) -> (r: GuideEntry)
    ensures
        r@ == guide_entry(g@),
{
    GuideEntry {
        guide: g.name.clone(),
        category: g.category.clone(),
        description: g.description.clone(),
        usage_count: g.usage_count,
        last_used: day_from(g.last_used),
        success_count: g.success_count,
        failure_count: g.failure_count,
        contexts: clone_all(&g.contexts),
        learnings: clone_all(&g.learnings),
    }
}

} // verus!
