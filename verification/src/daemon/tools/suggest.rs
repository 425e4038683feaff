//! Which guides help with a task.

use crate::daemon::tools::common::{text_or, text_or_else};
use crate::daemon::tools::detail::part_if;
use crate::daemon::tools::task_map::{task_guide_defs, task_guides, TaskGuide, TaskGuideView};
use crate::dates::{date_of, date_only};
use crate::domain::guide::{Guide, GuideView};
use crate::domain::memory::Instant;
use crate::lists::{append_each, find, first, first_place, select, take_first, written};
use crate::overlap::{byte_len, bytes_below};
use crate::text::{
    chars_of, clone_all, contains, dec, decimal, join, joined, lower, lowercase, opt_view, part_of,
    same, split_words, string_of, views, words,
};
use vstd::prelude::*;

verus! {

// ---------------------------------------------------------------------------
// Words in common
// ---------------------------------------------------------------------------

/// A character, or a space in place of a dash.
pub open spec fn spaced(c: char) -> char {
    if c == '-' || c == '_' {
        ' '
    } else {
        c
    }
}

/// The words of a text of two bytes or more, in lower case, cut at dashes too.
pub open spec fn tokens(s: Seq<char>) -> Seq<Seq<char>> {
    words(lowercase(s).map_values(|c: char| spaced(c))).filter(|w: Seq<char>| byte_len(w) >= 2)
}

fn tokenize(s: &str) -> (r: Vec<String>)
    ensures
        views(r@) == tokens(s@),
{
    let low = lower(s);
    let v = chars_of(low.as_str());
    let mut out: Vec<char> = Vec::new();
    let mut i: usize = 0;
    while i < v.len()
        invariant
            i <= v@.len(),
            v@ == lowercase(s@),
            out@.len() == i,
            forall|j: int| 0 <= j < i ==> #[trigger] out@[j] == spaced(v@[j]),
        decreases v@.len() - i,
    {
        if v[i] == '-' || v[i] == '_' {
            out.push(' ');
        } else {
            out.push(v[i]);
        }
        i += 1;
    }
    let t = string_of(&out, 0, out.len());
    proof {
        assert(t@ =~= lowercase(s@).map_values(|c: char| spaced(c)));
    }
    let ws = split_words(t.as_str());
    select(
        &ws,
        |w: &String| -> (b: bool)
            ensures
                b == (byte_len(w@) >= 2)
            { bytes_below(w.as_str(), 2).is_none() },
        Ghost(|w: Seq<char>| byte_len(w) >= 2),
    )
}

/// Whether one text is a part of the other.
pub open spec fn nested(a: Seq<char>, b: Seq<char>) -> bool {
    part_of(b, a) || part_of(a, b)
}

/// Whether a word is a part of one in a list, or one of them a part of it.
pub open spec fn near_one(w: Seq<char>, list: Seq<Seq<char>>) -> bool {
    exists|j: int| 0 <= j < list.len() && nested(w, #[trigger] list[j])
}

/// Whether a word of one text is a part of a word of the other.
pub open spec fn token_match(text: Seq<char>, target: Seq<char>) -> bool {
    exists|i: int|
        0 <= i < tokens(text).len() && near_one(#[trigger] tokens(text)[i], tokens(target))
}

fn has_near(w: &String, list: &Vec<String>) -> (r: bool)
    ensures
        r == near_one(w@, views(list@)),
{
    let ghost vs = views(list@);
    let mut j: usize = 0;
    while j < list.len()
        invariant
            j <= list@.len(),
            vs == views(list@),
            forall|k: int| 0 <= k < j ==> !nested(w@, #[trigger] vs[k]),
        decreases list@.len() - j,
    {
        proof {
            assert(vs[j as int] == list@[j as int]@);
        }
        if contains(w.as_str(), list[j].as_str()) || contains(list[j].as_str(), w.as_str()) {
            return true;
        }
        j += 1;
    }
    false
}

/// Whether a word of one text is a part of a word of the other.
pub fn has_token_match(text: &str, target: &str) -> (r: bool)
    ensures
        r == token_match(text@, target@),
{
    let a = tokenize(text);
    let b = tokenize(target);
    let ghost ta = tokens(text@);
    let mut i: usize = 0;
    while i < a.len()
        invariant
            i <= a@.len(),
            ta == views(a@),
            ta == tokens(text@),
            views(b@) == tokens(target@),
            forall|k: int| 0 <= k < i ==> !near_one(#[trigger] ta[k], tokens(target@)),
        decreases a@.len() - i,
    {
        proof {
            assert(ta[i as int] == a@[i as int]@);
        }
        if has_near(&a[i], &b) {
            return true;
        }
        i += 1;
    }
    false
}

// ---------------------------------------------------------------------------
// Suggestions
// ---------------------------------------------------------------------------

/// A guide that may help.
#[derive(Debug)]
pub struct GuideSuggestion {
    pub guide: String,
    pub category: String,
    pub keywords: Vec<String>,
    pub is_tracked: bool,
    pub usage_count: u32,
    pub last_used: Option<String>,
    pub learnings: Vec<String>,
    pub contexts: Vec<String>,
}

/// The content of this record.
#[verifier::ext_equal]
pub struct GuideSuggestionView {
    pub guide: Seq<char>,
    pub category: Seq<char>,
    pub keywords: Seq<Seq<char>>,
    pub is_tracked: bool,
    pub usage_count: u32,
    pub last_used: Option<Seq<char>>,
    pub learnings: Seq<Seq<char>>,
    pub contexts: Seq<Seq<char>>,
}

impl View for GuideSuggestion {
    type V = GuideSuggestionView;

    open spec fn view(&self) -> GuideSuggestionView {
        GuideSuggestionView {
            guide: self.guide@,
            category: self.category@,
            keywords: views(self.keywords@),
            is_tracked: self.is_tracked,
            usage_count: self.usage_count,
            last_used: opt_view(self.last_used),
            learnings: views(self.learnings@),
            contexts: views(self.contexts@),
        }
    }
}

impl Clone for GuideSuggestion {
    fn clone(&self) -> (r: Self)
        ensures
            r@ == self@,
    {
        GuideSuggestion {
            guide: self.guide.clone(),
            category: self.category.clone(),
            keywords: clone_all(&self.keywords),
            is_tracked: self.is_tracked,
            usage_count: self.usage_count,
            last_used: self.last_used.clone(),
            learnings: clone_all(&self.learnings),
            contexts: clone_all(&self.contexts),
        }
    }
}

/// The day of a moment, if there is one.
pub open spec fn day_of(t: Option<Instant>) -> Option<Seq<char>> {
    match t {
        Some(x) => Some(date_of(x.0)),
        None => None,
    }
}

pub fn day_from(t: Option<Instant>) -> (r: Option<String>)
    ensures
        opt_view(r) == day_of(t),
{
    match t {
        Some(x) => Some(date_only(x.0)),
        None => None,
    }
}

/// Whether a keyword of a task occurs in a text.
pub open spec fn keyword_in(t: TaskGuideView, desc: Seq<char>) -> bool {
    exists|k: int| 0 <= k < t.keywords.len() && part_of(lowercase(#[trigger] t.keywords[k]), desc)
}

/// Whether a text calls for the guide of a task.
pub open spec fn calls_for(t: TaskGuideView, desc: Seq<char>) -> bool {
    part_of(t.guide, desc) || keyword_in(t, desc)
}

/// What is suggested for a task, with what is known of the guide.
pub open spec fn task_suggestion(t: TaskGuideView, guides: Seq<GuideView>) -> GuideSuggestionView {
    let i = first_place(guides, |g: GuideView| g.name == t.guide, 0);
    if i < guides.len() {
        GuideSuggestionView {
            guide: t.guide,
            category: t.category,
            keywords: t.keywords,
            is_tracked: true,
            usage_count: guides[i].usage_count,
            last_used: day_of(guides[i].last_used),
            learnings: guides[i].learnings,
            contexts: guides[i].contexts,
        }
    } else {
        GuideSuggestionView {
            guide: t.guide,
            category: t.category,
            keywords: t.keywords,
            is_tracked: false,
            usage_count: 0,
            last_used: None,
            learnings: Seq::empty(),
            contexts: Seq::empty(),
        }
    }
}

/// What is suggested of a guide that is there.
pub open spec fn own_suggestion(g: GuideView) -> GuideSuggestionView {
    GuideSuggestionView {
        guide: g.name,
        category: g.category,
        keywords: g.contexts,
        is_tracked: true,
        usage_count: g.usage_count,
        last_used: day_of(g.last_used),
        learnings: g.learnings,
        contexts: g.contexts,
    }
}

/// Whether a guide is among the suggestions.
pub open spec fn suggests(list: Seq<GuideSuggestionView>, name: Seq<char>) -> bool {
    exists|i: int| 0 <= i < list.len() && (#[trigger] list[i]).guide == name
}

/// What the first `n` kinds of tasks suggest.
pub open spec fn by_task(desc: Seq<char>, guides: Seq<GuideView>, n: int) -> Seq<GuideSuggestionView>
    decreases n,
{
    if n <= 0 {
        Seq::empty()
    } else {
        let rest = by_task(desc, guides, n - 1);
        let t = task_guides()[n - 1];
        if !suggests(rest, t.guide) && calls_for(t, desc) {
            rest.push(task_suggestion(t, guides))
        } else {
            rest
        }
    }
}

/// Whether some text of a list has a word in common with another text.
pub open spec fn any_match(desc: Seq<char>, list: Seq<Seq<char>>) -> bool {
    exists|i: int| 0 <= i < list.len() && token_match(desc, #[trigger] list[i])
}

/// Whether a guide has a word in common with a text: in its name, its contexts
/// or what was learned.
pub open spec fn speaks_of(g: GuideView, desc: Seq<char>) -> bool {
    token_match(desc, g.name) || any_match(desc, g.contexts) || any_match(desc, g.learnings)
}

/// The suggestions with those of the first `n` guides added.
pub open spec fn by_guide(
    list: Seq<GuideSuggestionView>,
    desc: Seq<char>,
    guides: Seq<GuideView>,
    n: int,
) -> Seq<GuideSuggestionView>
    decreases n,
{
    if n <= 0 {
        list
    } else {
        let rest = by_guide(list, desc, guides, n - 1);
        let g = guides[n - 1];
        if !suggests(rest, g.name) && speaks_of(g, desc) {
            rest.push(own_suggestion(g))
        } else {
            rest
        }
    }
}

/// The guides that help with a task: those of the kinds of tasks that its
/// description calls for, then those that have a word in common with it.
pub open spec fn suggested(description: Seq<char>, guides: Seq<GuideView>) -> Seq<
    GuideSuggestionView,
> {
    let desc = lowercase(description);
    by_guide(
        by_task(desc, guides, task_guides().len() as int),
        desc,
        guides,
        guides.len() as int,
    )
}

fn is_suggested(list: &Vec<GuideSuggestion>, name: &str) -> (r: bool)
    ensures
        r == suggests(views(list@), name@),
{
    let ghost vs = views(list@);
    let mut i: usize = 0;
    while i < list.len()
        invariant
            i <= list@.len(),
            vs == views(list@),
            forall|j: int| 0 <= j < i ==> (#[trigger] vs[j]).guide != name@,
        decreases list@.len() - i,
    {
        proof {
            assert(vs[i as int] == list@[i as int]@);
        }
        if same(list[i].guide.as_str(), name) {
            return true;
        }
        i += 1;
    }
    false
}

fn is_called_for(t: &TaskGuide, desc: &str) -> (r: bool)
    ensures
        r == calls_for(t@, desc@),
{
    if contains(desc, t.guide) {
        return true;
    }
    let ghost tv = t@;
    let mut k: usize = 0;
    while k < t.keywords.len()
        invariant
            k <= t.keywords@.len(),
            tv == t@,
            forall|j: int|
                0 <= j < k ==> !part_of(lowercase(#[trigger] tv.keywords[j]), desc@),
        decreases t.keywords@.len() - k,
    {
        proof {
            assert(tv.keywords[k as int] == t.keywords@[k as int]@);
        }
        if contains(desc, lower(t.keywords[k]).as_str()) {
            return true;
        }
        k += 1;
    }
    false
}

fn owned(list: &Vec<&'static str>) -> (r: Vec<String>)
    ensures
        views(r@) == views(list@),
{
    let mut out: Vec<String> = Vec::new();
    let mut i: usize = 0;
    while i < list.len()
        invariant
            i <= list@.len(),
            out@.len() == i,
            forall|j: int| 0 <= j < i ==> (#[trigger] out@[j])@ == list@[j]@,
        decreases list@.len() - i,
    {
        out.push(list[i].to_owned());
        i += 1;
    }
    proof {
        assert(views(out@) =~= views(list@));
    }
    out
}

fn suggestion_of(t: &TaskGuide, guides: &Vec<Guide>) -> (r: GuideSuggestion)
    ensures
        r@ == task_suggestion(t@, views(guides@)),
{
    let place = find(
        guides,
        |g: &Guide| -> (b: bool)
            ensures
                b == (g@.name == t@.guide)
            { same(g.name.as_str(), t.guide) },
        Ghost(|g: GuideView| g.name == t@.guide),
    );
    proof {
        assert(views(guides@).len() == guides@.len());
    }
    match place {
        Some(i) => GuideSuggestion {
            guide: t.guide.to_owned(),
            category: t.category.to_owned(),
            keywords: owned(&t.keywords),
            is_tracked: true,
            usage_count: guides[i].usage_count,
            last_used: day_from(guides[i].last_used),
            learnings: clone_all(&guides[i].learnings),
            contexts: clone_all(&guides[i].contexts),
        },
        None => {
            let r = GuideSuggestion {
                guide: t.guide.to_owned(),
                category: t.category.to_owned(),
                keywords: owned(&t.keywords),
                is_tracked: false,
                usage_count: 0,
                last_used: None,
                learnings: Vec::new(),
                contexts: Vec::new(),
            };
            proof {
                assert(r@ =~= task_suggestion(t@, views(guides@)));
            }
            r
        },
    }
}

fn any_matches(desc: &str, list: &Vec<String>) -> (r: bool)
    ensures
        r == any_match(desc@, views(list@)),
{
    let ghost vs = views(list@);
    let mut i: usize = 0;
    while i < list.len()
        invariant
            i <= list@.len(),
            vs == views(list@),
            forall|j: int| 0 <= j < i ==> !token_match(desc@, #[trigger] vs[j]),
        decreases list@.len() - i,
    {
        proof {
            assert(vs[i as int] == list@[i as int]@);
        }
        if has_token_match(desc, list[i].as_str()) {
            return true;
        }
        i += 1;
    }
    false
}

fn suggest_by_task(desc: &str, guides: &Vec<Guide>) -> (r: Vec<GuideSuggestion>)
    ensures
        views(r@) == by_task(desc@, views(guides@), task_guides().len() as int),
{
    let tasks = task_guide_defs();
    let ghost ts = views(tasks@);
    let mut out: Vec<GuideSuggestion> = Vec::new();
    let mut i: usize = 0;
    proof {
        assert(views(out@) =~= Seq::empty());
    }
    while i < tasks.len()
        invariant
            i <= tasks@.len(),
            ts == views(tasks@),
            ts == task_guides(),
            views(out@) == by_task(desc@, views(guides@), i as int),
        decreases tasks@.len() - i,
    {
        broadcast use crate::text::lemma_views_push;

        proof {
            assert(ts[i as int] == tasks@[i as int]@);
        }
        let t = &tasks[i];
        if !is_suggested(&out, t.guide) && is_called_for(t, desc) {
            out.push(suggestion_of(t, guides));
        }
        i += 1;
    }
    out
}

/// The guides that help with a task.
pub fn suggest_guides(task_description: &str, existing_guides: &Vec<Guide>) -> (r: Vec<
    GuideSuggestion,
>)
    ensures
        views(r@) == suggested(task_description@, views(existing_guides@)),
{
    let low = lower(task_description);
    let desc = low.as_str();
    let mut out = suggest_by_task(desc, existing_guides);
    let ghost list = views(out@);
    let ghost gs = views(existing_guides@);
    let mut i: usize = 0;
    while i < existing_guides.len()
        invariant
            i <= existing_guides@.len(),
            gs == views(existing_guides@),
            views(out@) == by_guide(list, desc@, gs, i as int),
        decreases existing_guides@.len() - i,
    {
        broadcast use crate::text::lemma_views_push;

        let g = &existing_guides[i];
        proof {
            assert(gs[i as int] == g@);
        }
        if !is_suggested(&out, g.name.as_str()) && (has_token_match(desc, g.name.as_str())
            || any_matches(desc, &g.contexts) || any_matches(desc, &g.learnings)) {
            out.push(
                GuideSuggestion {
                    guide: g.name.clone(),
                    category: g.category.clone(),
                    keywords: clone_all(&g.contexts),
                    is_tracked: true,
                    usage_count: g.usage_count,
                    last_used: day_from(g.last_used),
                    learnings: clone_all(&g.learnings),
                    contexts: clone_all(&g.contexts),
                },
            );
        }
        i += 1;
    }
    out
}

// ---------------------------------------------------------------------------
// As text
// ---------------------------------------------------------------------------

/// How many there are.
pub open spec fn suggestions_head_text(n: nat, k: nat, m: nat) -> Seq<char> {
    "=== GUIDE SUGGESTIONS ===\nFound "@ + dec(n) + " relevant guides ("@ + dec(k) + " tracked, "@ + dec(m) + " new)\n\n"@
}

pub fn suggestions_head(n: usize, k: usize, m: usize) -> (r: String)
    ensures
        r@ == suggestions_head_text(n as nat, k as nat, m as nat),
{
    let mut out = "=== GUIDE SUGGESTIONS ===\nFound ".to_owned();
    out.append(decimal(n as u64).as_str());
    out.append(" relevant guides (");
    out.append(decimal(k as u64).as_str());
    out.append(" tracked, ");
    out.append(decimal(m as u64).as_str());
    out.append(" new)\n\n");
    out
}

/// A guide that is known.
pub open spec fn tracked_line_text(category: Seq<char>, guide: Seq<char>, n: nat, day: Seq<char>) -> Seq<char> {
    "  ✓ ["@ + category + "] "@ + guide + " ("@ + dec(n) + "x, last: "@ + day + ")\n"@
}

pub fn tracked_line(category: &str, guide: &str, n: u64, day: &str) -> (r: String)
    ensures
        r@ == tracked_line_text(category@, guide@, n as nat, day@),
{
    let mut out = "  ✓ [".to_owned();
    out.append(category);
    out.append("] ");
    out.append(guide);
    out.append(" (");
    out.append(decimal(n).as_str());
    out.append("x, last: ");
    out.append(day);
    out.append(")\n");
    out
}

/// Something that was learned.
pub open spec fn learned_line_text(l: Seq<char>) -> Seq<char> {
    "      💡 "@ + l + "\n"@
}

pub fn learned_line(l: &str) -> (r: String)
    ensures
        r@ == learned_line_text(l@),
{
    let mut out = "      💡 ".to_owned();
    out.append(l);
    out.append("\n");
    out
}

/// There is more.
pub open spec fn learned_more_text(n: nat) -> Seq<char> {
    "      ... and "@ + dec(n) + " more learnings\n"@
}

pub fn learned_more(n: usize) -> (r: String)
    ensures
        r@ == learned_more_text(n as nat),
{
    let mut out = "      ... and ".to_owned();
    out.append(decimal(n as u64).as_str());
    out.append(" more learnings\n");
    out
}

/// A guide that is not known.
pub open spec fn new_line_text(category: Seq<char>, guide: Seq<char>) -> Seq<char> {
    "  + ["@ + category + "] "@ + guide + "\n"@
}

pub fn new_line(category: &str, guide: &str) -> (r: String)
    ensures
        r@ == new_line_text(category@, guide@),
{
    let mut out = "  + [".to_owned();
    out.append(category);
    out.append("] ");
    out.append(guide);
    out.append("\n");
    out
}

/// What calls for it.
pub open spec fn keywords_line_text(list: Seq<char>) -> Seq<char> {
    "      keywords: "@ + list + "\n"@
}

pub fn keywords_line(list: &str) -> (r: String)
    ensures
        r@ == keywords_line_text(list@),
{
    let mut out = "      keywords: ".to_owned();
    out.append(list);
    out.append("\n");
    out
}

pub open spec fn tracked_item(s: GuideSuggestionView) -> Seq<char> {
    tracked_line_text(
        s.category,
        s.guide,
        s.usage_count as nat,
        text_or(s.last_used, "n/a"@),
    ) + written(first(s.learnings, 3), |l: Seq<char>| learned_line_text(l)) + part_if(
        s.learnings.len() > 3,
        learned_more_text((s.learnings.len() - 3) as nat),
    )
}

pub open spec fn new_item(s: GuideSuggestionView) -> Seq<char> {
    new_line_text(s.category, s.guide) + part_if(
        s.keywords.len() > 0,
        keywords_line_text(joined(first(s.keywords, 5), ", "@)),
    )
}

fn tracked_string(s: &GuideSuggestion) -> (r: String)
    ensures
        r@ == tracked_item(s@),
{
    proof {
        assert(views(s.learnings@).len() == s.learnings@.len());
    }
    let mut out = tracked_line(
        s.category.as_str(),
        s.guide.as_str(),
        s.usage_count as u64,
        text_or_else(&s.last_used, "n/a").as_str(),
    );
    let some = take_first(&s.learnings, 3);
    append_each(
        &mut out,
        &some,
        |l: &String| -> (t: String)
            ensures
                t@ == learned_line_text(l@)
            { learned_line(l.as_str()) },
        Ghost(|l: Seq<char>| learned_line_text(l)),
    );
    if s.learnings.len() > 3 {
        out.append(learned_more(s.learnings.len() - 3).as_str());
    } else {
        out.append("");
    }
    out
}

fn new_string(s: &GuideSuggestion) -> (r: String)
    ensures
        r@ == new_item(s@),
{
    proof {
        assert(views(s.keywords@).len() == s.keywords@.len());
    }
    let mut out = new_line(s.category.as_str(), s.guide.as_str());
    if s.keywords.len() > 0 {
        let some = take_first(&s.keywords, 5);
        out.append(keywords_line(join(&some, ", ").as_str()).as_str());
    } else {
        out.append("");
    }
    out
}

/// The guides that are known, as text.
pub open spec fn tracked_part(list: Seq<GuideSuggestionView>) -> Seq<char> {
    part_if(
        list.len() > 0,
        "TRACKED (you have experience):\n"@ + written(
            list,
            |s: GuideSuggestionView| tracked_item(s),
        ) + "\n"@,
    )
}

/// The guides that are not known, as text.
pub open spec fn new_part(list: Seq<GuideSuggestionView>) -> Seq<char> {
    part_if(
        list.len() > 0,
        "SUGGESTED (not tracked yet):\n"@ + written(
            list,
            |s: GuideSuggestionView| new_item(s),
        ) + "\n"@,
    )
}

/// Suggestions as text.
pub open spec fn suggestions_text(list: Seq<GuideSuggestionView>) -> Seq<char> {
    let known = list.filter(|s: GuideSuggestionView| s.is_tracked);
    let fresh = list.filter(|s: GuideSuggestionView| !s.is_tracked);
    suggestions_head_text(list.len(), known.len(), fresh.len()) + tracked_part(known)
        + new_part(fresh) + part_if(
        list.len() == 0,
        "No relevant guides found for this"@
            + " task.\nTry describing the task with more specific terms.\n"@,
    ) + "========================"@
}

/// Suggestions as text.
pub fn format_guide_suggestions(suggestions: &Vec<GuideSuggestion>) -> (r: String)
    ensures
        r@ == suggestions_text(views(suggestions@)),
{
    let known = select(
        suggestions,
        |s: &GuideSuggestion| -> (b: bool)
            ensures
                b == s@.is_tracked
            { s.is_tracked },
        Ghost(|s: GuideSuggestionView| s.is_tracked),
    );
    let fresh = select(
        suggestions,
        |s: &GuideSuggestion| -> (b: bool)
            ensures
                b == !s@.is_tracked
            { !s.is_tracked },
        Ghost(|s: GuideSuggestionView| !s.is_tracked),
    );
    proof {
        assert(views(suggestions@).len() == suggestions@.len());
        assert(views(known@).len() == known@.len());
        assert(views(fresh@).len() == fresh@.len());
    }
    let mut out = suggestions_head(suggestions.len(), known.len(), fresh.len());
    if known.len() > 0 {
        let mut part = "TRACKED (you have experience):\n".to_owned();
        append_each(
            &mut part,
            &known,
            |s: &GuideSuggestion| -> (t: String)
                ensures
                    t@ == tracked_item(s@)
                { tracked_string(s) },
            Ghost(|s: GuideSuggestionView| tracked_item(s)),
        );
        part.append("\n");
        out.append(part.as_str());
    } else {
        out.append("");
    }
    if fresh.len() > 0 {
        let mut part = "SUGGESTED (not tracked yet):\n".to_owned();
        append_each(
            &mut part,
            &fresh,
            |s: &GuideSuggestion| -> (t: String)
                ensures
                    t@ == new_item(s@)
                { new_string(s) },
            Ghost(|s: GuideSuggestionView| new_item(s)),
        );
        part.append("\n");
        out.append(part.as_str());
    } else {
        out.append("");
    }
    if suggestions.len() == 0 {
        let mut part = "No relevant guides found for this".to_owned();
        part.append(" task.\nTry describing the task with more specific terms.\n");
        out.append(part.as_str());
    } else {
        out.append("");
    }
    out.append("========================");
    out
}

} // verus!
