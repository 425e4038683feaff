//! `semantic_search`: the memories that are closest to a query.

use crate::canonical::repository::{by_id, legacy_id, legacy_name};
use crate::compatibility::lemma::tool_args::SemanticSearchArgs;
use crate::daemon::dispatcher::Dispatcher;
use crate::daemon::envelope::{ToolResult, ToolResultView};
use crate::daemon::tools::common::{
    format_result, formatted, relevance, relevance_of, Hit, HitView,
};
use crate::daemon::tools::data::{
    SearchData, SearchDataView, SearchEntry, SearchEntryView, ToolData, ToolDataView,
};
use crate::daemon::tools::detail::part_if;
use crate::domain::memory::{Memory, MemoryView};
use crate::domain::score::{coded_signed, Score};
use crate::domain::state::StateView;
use crate::double::{from_whole, whole};
use crate::figures::{percent, percent_of};
use crate::lists::{append_each, mapped, next_page, page, rank, select, take_page, written};
use crate::rank::ranked;
use crate::signed::Signed;
use crate::text::{
    clone_all, dec, decimal, first_chars, lower, lowercase, same, split_words,
    take_chars, views,
};
use vstd::prelude::*;

verus! {

/// How many results a page holds.
pub open spec fn search_limit(args: SemanticSearchArgs) -> int {
    match args.top_k {
        None => 10,
        Some(n) => if n < 1 {
            1
        } else if n > 30 {
            30
        } else {
            n as int
        },
    }
}

pub open spec fn search_offset(args: SemanticSearchArgs) -> int {
    match args.offset {
        None => 0,
        Some(n) => n as int,
    }
}

/// Whether a memory may be found.
pub open spec fn may_be_found(args: SemanticSearchArgs, m: MemoryView) -> bool {
    &&& m.lifecycle is Live
    &&& args.project is None || m.project is None || m.project->0 == args.project->0@
    &&& relevance(m, lowercase(args.query@)) > 0
}

/// The score of a memory that holds `n` words of a query: as many.
pub open spec fn word_score(n: nat) -> Score {
    coded_signed(Signed { negative: false, size: whole(n) })
}

fn score_of_words(n: usize) -> (r: Score)
    ensures
        r == word_score(n as nat),
{
    Score::from_number(Signed { negative: false, size: from_whole(n as u128) })
}

/// The memories of the store that hold a word of the query, those with the most
/// first.
pub open spec fn lexical(s: StateView, args: SemanticSearchArgs) -> Seq<HitView> {
    let q = lowercase(args.query@);
    ranked(
        by_id(s.memories).filter(|m: MemoryView| may_be_found(args, m)),
        |m: MemoryView| (-(relevance(m, q) as int), m.id.0 as int),
    ).map_values(|m: MemoryView| HitView { memory: m, score: word_score(relevance(m, q)) })
}

/// What is found: what the search backend found, or else what holds a word of
/// the query.
pub open spec fn found_for(s: StateView, args: SemanticSearchArgs, hits: Seq<HitView>) -> Seq<
    HitView,
> {
    if hits.len() > 0 {
        hits
    } else {
        lexical(s, args)
    }
}

/// Nothing is close.
pub open spec fn none_found_text(query: Seq<char>) -> Seq<char> {
    "No semantically similar memories found for: \""@ + query + "\""@
}

pub fn none_found(query: &str) -> (r: String)
    ensures
        r@ == none_found_text(query@),
{
    let mut out = "No semantically similar memories found for: \"".to_owned();
    out.append(query);
    out.append("\"");
    out
}

/// How much is close.
pub open spec fn search_head_text(query: Seq<char>, n: nat) -> Seq<char> {
    "=== SEMANTIC SEARCH RESULTS ===\nQuery: \""@ + query + "\"\nFound "@ + dec(n) + " similar memories:\n\n"@
}

pub fn search_head(query: &str, n: usize) -> (r: String)
    ensures
        r@ == search_head_text(query@, n as nat),
{
    let mut out = "=== SEMANTIC SEARCH RESULTS ===\nQuery: \"".to_owned();
    out.append(query);
    out.append("\"\nFound ");
    out.append(decimal(n as u64).as_str());
    out.append(" similar memories:\n\n");
    out
}

/// One result.
pub open spec fn search_line_text(p: nat, id: Seq<char>, title: Seq<char>, preview: Seq<char>) -> Seq<char> {
    "  ["@ + dec(p) + "%] ["@ + id + "] \""@ + title + "\"\n      "@ + preview + "...\n"@
}

pub fn search_line(p: u64, id: &str, title: &str, preview: &str) -> (r: String)
    ensures
        r@ == search_line_text(p as nat, id@, title@, preview@),
{
    let mut out = "  [".to_owned();
    out.append(decimal(p).as_str());
    out.append("%] [");
    out.append(id);
    out.append("] \"");
    out.append(title);
    out.append("\"\n      ");
    out.append(preview);
    out.append("...\n");
    out
}

/// There is a next page.
pub open spec fn search_more_text(next: nat) -> Seq<char> {
    "\nMore results available. Pass offset="@ + dec(next) + " for the next page."@
}

pub fn search_more(next: usize) -> (r: String)
    ensures
        r@ == search_more_text(next as nat),
{
    let mut out = "\nMore results available. Pass offset=".to_owned();
    out.append(decimal(next as u64).as_str());
    out.append(" for the next page.");
    out
}

pub open spec fn result_line(h: HitView) -> Seq<char> {
    search_line_text(
        percent(h.score),
        legacy_name(h.memory),
        h.memory.title,
        first_chars(h.memory.fragment, 100),
    )
}

pub open spec fn result_entry(h: HitView) -> SearchEntryView {
    SearchEntryView {
        id: legacy_name(h.memory),
        title: h.memory.title,
        score: h.score,
        fragment_preview: first_chars(h.memory.fragment, 200),
    }
}

/// What `semantic_search` answers.
#[verifier::opaque]
pub open spec fn semantic_search(s: StateView, args: SemanticSearchArgs, hits: Seq<HitView>) ->
    ToolResultView {
    let all = found_for(s, args, hits);
    let next = search_offset(args) + search_limit(args);
    let shown = page(all, search_offset(args), search_limit(args));
    let has_more = next < all.len();
    let data = SearchDataView {
        count: shown.len() as usize,
        total: all.len() as usize,
        results: shown.map_values(|h: HitView| result_entry(h)),
        has_more,
        next_offset: if has_more {
            Some(next as usize)
        } else {
            None
        },
    };
    let text = if shown.len() == 0 {
        none_found_text(args.query@)
    } else {
        search_head_text(args.query@, shown.len()) + written(
            shown,
            |h: HitView| result_line(h),
        ) + part_if(has_more, search_more_text(next as nat))
    };
    formatted(text, ToolDataView::Search(data), args.response_format)
}

fn find_words(disp: &Dispatcher, args: &SemanticSearchArgs) -> (r: Vec<Hit>)
    ensures
        views(r@) == lexical(disp@.store, *args),
{
    let all = disp.repo.all_memories();
    let q = lower(args.query.as_str());
    let ws = split_words(q.as_str());
    let ghost qv = q@;
    let ms = select(
        &all,
        |m: &Memory| -> (b: bool)
            ensures
                b == may_be_found(*args, m@)
            {
                let in_scope = match (&args.project, &m.project) {
                    (Some(p), Some(mp)) => same(mp.as_str(), p.as_str()),
                    _ => true,
                };
                m.lifecycle.is_recallable() && in_scope && relevance_of(m, &ws, Ghost(qv)) > 0
            },
        Ghost(|m: MemoryView| may_be_found(*args, m)),
    );
    let best = rank(
        &ms,
        |m: &Memory| -> (k: (i128, u128))
            ensures
                k.0 == -relevance(m@, qv) && k.1 == m@.id.0
            { (-(relevance_of(m, &ws, Ghost(qv)) as i128), m.id.0) },
        Ghost(|m: MemoryView| (-(relevance(m, qv) as int), m.id.0 as int)),
    );
    mapped(
        &best,
        |m: &Memory| -> (h: Hit)
            ensures
                h@ == (HitView { memory: m@, score: word_score(relevance(m@, qv)) })
            {
                let n: usize = relevance_of(m, &ws, Ghost(qv));
                Hit { memory: m.clone(), score: score_of_words(n) }
            },
        Ghost(|m: MemoryView| HitView { memory: m, score: word_score(relevance(m, qv)) }),
    )
}

/// `semantic_search`: a page of the memories that are closest to a query.
pub fn exec_semantic_search(disp: &Dispatcher, args: &SemanticSearchArgs, hits: &Vec<Hit>) -> (r:
    ToolResult)
    ensures
        r@ == semantic_search(disp@.store, *args, views(hits@)),
{
    proof {
        reveal(semantic_search);
    }
    let limit: usize = match args.top_k {
        None => 10,
        Some(n) => if n < 1 {
            1
        } else if n > 30 {
            30
        } else {
            n
        },
    };
    let offset: usize = match args.offset {
        None => 0,
        Some(n) => n,
    };
    proof {
        assert(views(hits@).len() == hits@.len());
    }
    let all = if hits.len() > 0 {
        clone_all(hits)
    } else {
        find_words(disp, args)
    };
    let shown = take_page(&all, offset, limit);
    proof {
        assert(views(all@).len() == all@.len());
        assert(views(shown@).len() == shown@.len());
    }
    let next: usize = next_page(offset, limit);
    let has_more = next < all.len();
    let results: Vec<SearchEntry> = mapped(
        &shown,
        |h: &Hit| -> (e: SearchEntry)
            ensures
                e@ == result_entry(h@)
            {
                SearchEntry {
                    id: legacy_id(&h.memory),
                    title: h.memory.title.clone(),
                    score: h.score,
                    fragment_preview: take_chars(h.memory.fragment.as_str(), 200),
                }
            },
        Ghost(|h: HitView| result_entry(h)),
    );
    let data = SearchData {
        count: shown.len(),
        total: all.len(),
        results,
        has_more,
        next_offset: if has_more {
            Some(next)
        } else {
            None
        },
    };
    if shown.len() == 0 {
        return format_result(
            none_found(args.query.as_str()),
            ToolData::Search(data),
            args.response_format,
        );
    }
    let mut text = search_head(args.query.as_str(), shown.len());
    append_each(
        &mut text,
        &shown,
        |h: &Hit| -> (t: String)
            ensures
                t@ == result_line(h@)
            {
                search_line(
                    percent_of(h.score),
                    legacy_id(&h.memory).as_str(),
                    h.memory.title.as_str(),
                    take_chars(h.memory.fragment.as_str(), 100).as_str(),
                )
            },
        Ghost(|h: HitView| result_line(h)),
    );
    if has_more {
        text.append(search_more(next).as_str());
    } else {
        text.append("");
    }
    format_result(text, ToolData::Search(data), args.response_format)
}

} // verus!
