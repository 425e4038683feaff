//! Projects in figures.

use crate::compatibility::lemma::intelligence::{
    ProjectProgress, ProjectProgressView, SkillCoverage, SkillCoverageView,
};
use crate::dates::{date_of, date_only};
use crate::domain::guide::{Guide, GuideView};
use crate::domain::memory::{FragmentType, Memory, MemoryView};
use crate::domain::score::{coded_signed, Score, UNIT};
use crate::domain::session::{Session, SessionView, TaskOutcome};
use crate::double::{from_whole, quotient, ratio, whole, Double};
use crate::figures::{percent_string, percent_text, short_places, short_places_text};
use crate::lists::{
    append_each, count, find, first, first_place, mapped, rank, select, take_first, texts, written,
};
use crate::overlap::{distinct, distinct_words};
use crate::rank::ranked;
use crate::signed::{at_most_one, cap, mean, mean_of, Signed};
use crate::text::{
    add_text, dec, decimal, holds, lower, lowercase, opt_view, same, views, with_text,
};
use vstd::prelude::*;

verus! {

/// A week in milliseconds.
pub const WEEK: u64 = 604_800_000;

/// Whether a record belongs to a project, without regard to case.
pub open spec fn belongs(p: Option<Seq<char>>, project: Seq<char>) -> bool {
    p is Some && lowercase(p->0) == lowercase(project)
}

fn belongs_to(p: &Option<String>, project_lower: &str, Ghost(project): Ghost<Seq<char>>) -> (r: bool)
    requires
        project_lower@ == lowercase(project),
    ensures
        r == belongs(opt_view(*p), project),
{
    match p {
        Some(x) => same(lower(x.as_str()).as_str(), project_lower),
        None => false,
    }
}

/// The sessions of a project, the latest first.
pub open spec fn sessions_in(ss: Seq<SessionView>, project: Seq<char>) -> Seq<SessionView> {
    ranked(
        ss.filter(|s: SessionView| belongs(s.project, project)),
        |s: SessionView| (-(s.started_at.0 as int), 0int),
    )
}

/// The memories of a project, the latest first.
pub open spec fn memories_in(ms: Seq<MemoryView>, project: Seq<char>) -> Seq<MemoryView> {
    ranked(
        ms.filter(|m: MemoryView| belongs(m.project, project)),
        |m: MemoryView| (-(m.created_at.0 as int), 0int),
    )
}

/// How long ago something was.
pub open spec fn age(at: u64, now: u64) -> int {
    if now >= at {
        now - at
    } else {
        0
    }
}

fn age_of(at: u64, now: u64) -> (r: u64)
    ensures
        r == age(at, now),
{
    if now >= at {
        now - at
    } else {
        0
    }
}

/// How fast the memory of a project grows, in hundredths: the memories of this
/// week for each of the week before.
pub open spec fn growth(ms: Seq<MemoryView>, now: u64) -> nat {
    let recent = ms.filter(|m: MemoryView| age(m.created_at.0, now) < WEEK).len();
    let older = ms.filter(
        |m: MemoryView| WEEK <= age(m.created_at.0, now) < 2 * WEEK,
    ).len();
    if ms.len() < 2 {
        0
    } else if older == 0 {
        if recent > 0 {
            100
        } else {
            0
        }
    } else {
        ratio(recent, older).times(whole(100)).rounded()
    }
}

fn growth_of(memories: &Vec<Memory>, now: u64) -> (r: u128)
    ensures
        r == growth(views(memories@), now),
{
    let recent: usize = count(
        memories,
        |m: &Memory| -> (b: bool)
            ensures
                b == (age(m@.created_at.0, now) < WEEK)
            { age_of(m.created_at.0, now) < WEEK },
        Ghost(|m: MemoryView| age(m.created_at.0, now) < WEEK),
    );
    let older: usize = count(
        memories,
        |m: &Memory| -> (b: bool)
            ensures
                b == (WEEK <= age(m@.created_at.0, now) < 2 * WEEK)
            {
                let a: u64 = age_of(m.created_at.0, now);
                WEEK <= a && a < 2 * WEEK
            },
        Ghost(|m: MemoryView| WEEK <= age(m.created_at.0, now) < 2 * WEEK),
    );
    if memories.len() < 2 {
        0
    } else if older == 0 {
        if recent > 0 {
            100
        } else {
            0
        }
    } else {
        let q = quotient(recent as u128, older as u128);
        let hundred = from_whole(100);
        let scaled = q.multiplied(hundred);
        proof {
            assert(q.within(210) && hundred.within(74));
        }
        scaled.to_rounded()
    }
}

/// The category of a guide, if it has one.
pub open spec fn category_of(g: GuideView) -> Seq<char> {
    if g.category.len() == 0 {
        "uncategorized"@
    } else {
        g.category
    }
}

fn category_name(g: &Guide) -> (r: String)
    ensures
        r@ == category_of(g@),
{
    if g.category.as_str().is_empty() {
        "uncategorized".to_owned()
    } else {
        g.category.clone()
    }
}

/// How often all guides were used.
pub open spec fn total_usage(gs: Seq<GuideView>) -> int
    decreases gs.len(),
{
    if gs.len() == 0 {
        0
    } else {
        total_usage(gs.drop_last()) + gs.last().usage_count
    }
}

/// How often the guides of a category were used.
pub open spec fn usage_in(gs: Seq<GuideView>, category: Seq<char>) -> int
    decreases gs.len(),
{
    if gs.len() == 0 {
        0
    } else if category_of(gs.last()) == category {
        usage_in(gs.drop_last(), category) + gs.last().usage_count
    } else {
        usage_in(gs.drop_last(), category)
    }
}

proof fn lemma_usage_bound(gs: Seq<GuideView>, n: int, category: Seq<char>)
    requires
        0 <= n <= gs.len(),
    ensures
        0 <= usage_in(gs.take(n), category) <= total_usage(gs.take(n)) <= total_usage(gs),
    decreases gs.len(),
{
    if n == gs.len() {
        assert(gs.take(n) =~= gs);
        if gs.len() > 0 {
            lemma_usage_bound(gs.drop_last(), n - 1, category);
            assert(gs.drop_last().take(n - 1) =~= gs.drop_last());
        }
    } else {
        lemma_usage_bound(gs.drop_last(), n, category);
        assert(gs.drop_last().take(n) =~= gs.take(n));
    }
}

fn usage_of(guides: &Vec<Guide>, category: &str) -> (r: u32)
    requires
        total_usage(views(guides@)) <= u32::MAX,
    ensures
        r == usage_in(views(guides@), category@),
{
    let ghost gs = views(guides@);
    let mut n: u32 = 0;
    let mut i: usize = 0;
    proof {
        assert(gs.take(0) =~= Seq::empty());
    }
    while i < guides.len()
        invariant
            i <= guides@.len(),
            gs == views(guides@),
            total_usage(gs) <= u32::MAX,
            n == usage_in(gs.take(i as int), category@),
        decreases guides@.len() - i,
    {
        proof {
            let t = gs.take(i + 1);
            assert(t.drop_last() =~= gs.take(i as int));
            assert(t.last() == guides@[i as int]@);
            lemma_usage_bound(gs, i + 1, category@);
        }
        let c = category_name(&guides[i]);
        if same(c.as_str(), category) {
            n = n + guides[i].usage_count;
        }
        i += 1;
    }
    proof {
        assert(gs.take(gs.len() as int) =~= gs);
    }
    n
}

/// Whether a technology is the name or a context of a guide.
pub open spec fn covers(g: GuideView, tech: Seq<char>) -> bool {
    g.name == tech || g.contexts.contains(tech)
}

/// Whether the first guide that covers a technology is of a category.
pub open spec fn trains(gs: Seq<GuideView>, tech: Seq<char>, category: Seq<char>) -> bool {
    let i = first_place(gs, |g: GuideView| covers(g, tech), 0);
    i < gs.len() && category_of(gs[i]) == category
}

fn is_trained(guides: &Vec<Guide>, tech: &str, category: &str) -> (r: bool)
    ensures
        r == trains(views(guides@), tech@, category@),
{
    let at = find(
        guides,
        |g: &Guide| -> (b: bool)
            ensures
                b == covers(g@, tech@)
            { same(g.name.as_str(), tech) || holds(&g.contexts, tech) },
        Ghost(|g: GuideView| covers(g, tech@)),
    );
    match at {
        Some(i) => same(category_name(&guides[i]).as_str(), category),
        None => false,
    }
}

/// How many technologies all sessions name.
pub open spec fn total_techs(ss: Seq<SessionView>) -> int
    decreases ss.len(),
{
    if ss.len() == 0 {
        0
    } else {
        total_techs(ss.drop_last()) + ss.last().technologies.len()
    }
}

/// How many technologies of this week's sessions fall into a category.
pub open spec fn recent_uses(
    ss: Seq<SessionView>,
    gs: Seq<GuideView>,
    category: Seq<char>,
    now: u64,
) -> int
    decreases ss.len(),
{
    if ss.len() == 0 {
        0
    } else {
        let rest = recent_uses(ss.drop_last(), gs, category, now);
        if age(ss.last().started_at.0, now) < WEEK {
            rest + ss.last().technologies.filter(
                |t: Seq<char>| trains(gs, t, category),
            ).len()
        } else {
            rest
        }
    }
}

proof fn lemma_uses_bound(
    ss: Seq<SessionView>,
    n: int,
    gs: Seq<GuideView>,
    category: Seq<char>,
    now: u64,
)
    requires
        0 <= n <= ss.len(),
    ensures
        0 <= recent_uses(ss.take(n), gs, category, now) <= total_techs(ss.take(n)) <= total_techs(
            ss,
        ),
    decreases ss.len(),
{
    if n == ss.len() {
        assert(ss.take(n) =~= ss);
        if ss.len() > 0 {
            lemma_uses_bound(ss.drop_last(), n - 1, gs, category, now);
            assert(ss.drop_last().take(n - 1) =~= ss.drop_last());
            crate::rank::lemma_filter_members(
                ss.last().technologies,
                |t: Seq<char>| trains(gs, t, category),
            );
        }
    } else {
        lemma_uses_bound(ss.drop_last(), n, gs, category, now);
        assert(ss.drop_last().take(n) =~= ss.take(n));
    }
}

fn recent_uses_of(sessions: &Vec<Session>, guides: &Vec<Guide>, category: &str, now: u64) -> (r:
    u32)
    requires
        total_techs(views(sessions@)) <= u32::MAX,
    ensures
        r == recent_uses(views(sessions@), views(guides@), category@, now),
{
    let ghost ss = views(sessions@);
    let ghost gs = views(guides@);
    let mut n: u32 = 0;
    let mut i: usize = 0;
    proof {
        assert(ss.take(0) =~= Seq::empty());
    }
    while i < sessions.len()
        invariant
            i <= sessions@.len(),
            ss == views(sessions@),
            gs == views(guides@),
            total_techs(ss) <= u32::MAX,
            n == recent_uses(ss.take(i as int), gs, category@, now),
        decreases sessions@.len() - i,
    {
        proof {
            let t = ss.take(i + 1);
            assert(t.drop_last() =~= ss.take(i as int));
            assert(t.last() == sessions@[i as int]@);
            lemma_uses_bound(ss, i + 1, gs, category@, now);
        }
        if age_of(sessions[i].started_at.0, now) < WEEK {
            let more: usize = count(
                &sessions[i].technologies,
                |t: &String| -> (b: bool)
                    ensures
                        b == trains(gs, t@, category@)
                    { is_trained(guides, t.as_str(), category) },
                Ghost(|t: Seq<char>| trains(gs, t, category@)),
            );
            n = n + more as u32;
        }
        i += 1;
    }
    proof {
        assert(ss.take(ss.len() as int) =~= ss);
    }
    n
}

/// Whether the use of a category grows.
pub open spec fn trend(total: int, recent: int) -> Seq<char> {
    if total > 0 {
        if ratio(3, 10).below(ratio(recent as nat, total as nat)) {
            "growing"@
        } else if ratio(recent as nat, total as nat).below(ratio(1, 20)) && total > 5 {
            "declining"@
        } else {
            "stable"@
        }
    } else {
        "stable"@
    }
}

fn trend_of(total: u32, recent: u32) -> (r: &'static str)
    ensures
        r@ == trend(total as int, recent as int),
{
    if total > 0 {
        let q = quotient(recent as u128, total as u128);
        if quotient(3, 10).is_below(q) {
            "growing"
        } else if q.is_below(quotient(1, 20)) && total > 5 {
            "declining"
        } else {
            "stable"
        }
    } else {
        "stable"
    }
}

/// How much a category is used.
pub open spec fn coverage_of(
    category: Seq<char>,
    ss: Seq<SessionView>,
    gs: Seq<GuideView>,
    now: u64,
) -> SkillCoverageView {
    SkillCoverageView {
        category,
        count: usage_in(gs, category) as u32,
        trend: trend(usage_in(gs, category), recent_uses(ss, gs, category, now)),
    }
}

/// The categories of the guides, in the order in which they come first.
pub open spec fn categories(gs: Seq<GuideView>) -> Seq<Seq<char>> {
    distinct(gs.map_values(|g: GuideView| category_of(g)))
}

/// The categories by use. Of equal ones, the one that comes first.
pub open spec fn coverage(ss: Seq<SessionView>, gs: Seq<GuideView>, now: u64) -> Seq<
    SkillCoverageView,
> {
    ranked(
        categories(gs).map_values(|c: Seq<char>| coverage_of(c, ss, gs, now)),
        |s: SkillCoverageView| (-(s.count as int), 0int),
    )
}

fn coverage_in(sessions: &Vec<Session>, guides: &Vec<Guide>, now: u64) -> (r: Vec<SkillCoverage>)
    requires
        total_usage(views(guides@)) <= u32::MAX,
        total_techs(views(sessions@)) <= u32::MAX,
    ensures
        views(r@) == coverage(views(sessions@), views(guides@), now),
{
    let ghost ss = views(sessions@);
    let ghost gs = views(guides@);
    let all = texts(
        guides,
        |g: &Guide| -> (t: String)
            ensures
                t@ == category_of(g@)
            { category_name(g) },
        Ghost(|g: GuideView| category_of(g)),
    );
    let names = distinct_words(&all);
    let list: Vec<SkillCoverage> = mapped(
        &names,
        |c: &String| -> (s: SkillCoverage)
            ensures
                s@ == coverage_of(c@, ss, gs, now)
            {
                let total: u32 = usage_of(guides, c.as_str());
                let recent: u32 = recent_uses_of(sessions, guides, c.as_str(), now);
                SkillCoverage {
                    category: c.clone(),
                    count: total,
                    trend: trend_of(total, recent).to_owned(),
                }
            },
        Ghost(|c: Seq<char>| coverage_of(c, ss, gs, now)),
    );
    rank(
        &list,
        |s: &SkillCoverage| -> (k: (i128, u128))
            ensures
                k.0 == -s@.count && k.1 == 0
            { (-(s.count as i128), 0) },
        Ghost(|s: SkillCoverageView| (-(s.count as int), 0int)),
    )
}

/// A session that went well.
pub open spec fn completed_text(task: Seq<char>, date: Seq<char>) -> Seq<char> {
    "Completed "@ + task + " task successfully ("@ + date + ")"@
}

pub fn completed(task: &str, date: &str) -> (r: String)
    ensures
        r@ == completed_text(task@, date@),
{
    let mut out = "Completed ".to_owned();
    out.append(task);
    out.append(" task successfully (");
    out.append(date);
    out.append(")");
    out
}

/// What the memory is strong in.
pub open spec fn strong_text(kind: Seq<char>, n: nat) -> Seq<char> {
    "Strong knowledge base in "@ + kind + " ("@ + dec(n) + " high-confidence fragments)"@
}

pub fn strong(kind: &str, n: usize) -> (r: String)
    ensures
        r@ == strong_text(kind@, n as nat),
{
    let mut out = "Strong knowledge base in ".to_owned();
    out.append(kind);
    out.append(" (");
    out.append(decimal(n as u64).as_str());
    out.append(" high-confidence fragments)");
    out
}

/// A memory that is new.
pub open spec fn latest_text(title: Seq<char>, kind: Seq<char>) -> Seq<char> {
    "Recent: \""@ + title + "\" ("@ + kind + ")"@
}

pub fn latest(title: &str, kind: &str) -> (r: String)
    ensures
        r@ == latest_text(title@, kind@),
{
    let mut out = "Recent: \"".to_owned();
    out.append(title);
    out.append("\" (");
    out.append(kind);
    out.append(")");
    out
}

/// Whether a session ended in success.
pub open spec fn is_success(s: SessionView) -> bool {
    s.outcome == Some(TaskOutcome::Success)
}

/// The sessions that went well, as insights; those without a task are passed
/// over.
pub open spec fn completions(ss: Seq<SessionView>) -> Seq<Seq<char>>
    decreases ss.len(),
{
    if ss.len() == 0 {
        Seq::empty()
    } else {
        let rest = completions(ss.drop_last());
        match ss.last().task_type {
            Some(t) => rest.push(completed_text(t, date_of(ss.last().started_at.0))),
            None => rest,
        }
    }
}

fn completions_of(sessions: &Vec<Session>) -> (r: Vec<String>)
    ensures
        views(r@) == completions(views(sessions@)),
{
    let ghost ss = views(sessions@);
    let mut out: Vec<String> = Vec::new();
    let mut i: usize = 0;
    proof {
        assert(ss.take(0) =~= Seq::empty());
        assert(views(out@) =~= Seq::empty());
    }
    while i < sessions.len()
        invariant
            i <= sessions@.len(),
            ss == views(sessions@),
            views(out@) == completions(ss.take(i as int)),
        decreases sessions@.len() - i,
    {
        broadcast use crate::text::lemma_views_push;

        proof {
            let t = ss.take(i + 1);
            assert(t.drop_last() =~= ss.take(i as int));
            assert(t.last() == sessions@[i as int]@);
        }
        if let Some(t) = &sessions[i].task_type {
            out.push(completed(t.as_str(), date_only(sessions[i].started_at.0).as_str()));
        }
        i += 1;
    }
    proof {
        assert(ss.take(ss.len() as int) =~= ss);
    }
    out
}

/// Above this confidence a memory is well trusted: eight tenths.
pub const TRUSTED: i64 = 4_605_380_978_949_069_210;

/// Whether a memory is well trusted.
pub open spec fn is_strong(m: MemoryView) -> bool {
    m.confidence.0 > TRUSTED
}

/// How many memories are of a type.
pub open spec fn of_type(ms: Seq<MemoryView>, t: FragmentType) -> nat {
    ms.filter(|m: MemoryView| m.fragment_type == t).len()
}

fn count_type(memories: &Vec<Memory>, t: FragmentType) -> (r: usize)
    ensures
        r == of_type(views(memories@), t),
{
    count(
        memories,
        |m: &Memory| -> (b: bool)
            ensures
                b == (m@.fragment_type == t)
            { m.fragment_type == t },
        Ghost(|m: MemoryView| m.fragment_type == t),
    )
}

/// The more frequent of two types; of equal ones, the first.
pub open spec fn more_frequent(ms: Seq<MemoryView>, a: FragmentType, b: FragmentType) ->
    FragmentType {
    if of_type(ms, b) > of_type(ms, a) {
        b
    } else {
        a
    }
}

fn more_frequent_of(memories: &Vec<Memory>, a: FragmentType, b: FragmentType) -> (r: FragmentType)
    ensures
        r == more_frequent(views(memories@), a, b),
{
    if count_type(memories, b) > count_type(memories, a) {
        b
    } else {
        a
    }
}

/// The most frequent type among memories.
pub open spec fn dominant(ms: Seq<MemoryView>) -> FragmentType {
    more_frequent(
        ms,
        more_frequent(
            ms,
            more_frequent(
                ms,
                more_frequent(ms, FragmentType::Fact, FragmentType::Pattern),
                FragmentType::Lesson,
            ),
            FragmentType::Warning,
        ),
        FragmentType::Context,
    )
}

fn dominant_of(memories: &Vec<Memory>) -> (r: FragmentType)
    ensures
        r == dominant(views(memories@)),
{
    let a = more_frequent_of(memories, FragmentType::Fact, FragmentType::Pattern);
    let b = more_frequent_of(memories, a, FragmentType::Lesson);
    let c = more_frequent_of(memories, b, FragmentType::Warning);
    more_frequent_of(memories, c, FragmentType::Context)
}

/// What the well trusted memories are strong in.
pub open spec fn strengths(ms: Seq<MemoryView>) -> Seq<Seq<char>> {
    let strong_ones = ms.filter(|m: MemoryView| is_strong(m));
    if strong_ones.len() == 0 {
        Seq::empty()
    } else {
        seq![
            strong_text(
                dominant(strong_ones).name(),
                of_type(strong_ones, dominant(strong_ones)),
            ),
        ]
    }
}

/// What happened of late in a project.
pub open spec fn insights(ss: Seq<SessionView>, ms: Seq<MemoryView>) -> Seq<Seq<char>> {
    first(
        completions(first(ss.filter(|s: SessionView| is_success(s)), 3)) + strengths(ms) + first(
            ms,
            3,
        ).map_values(|m: MemoryView| latest_text(m.title, m.fragment_type.name())),
        8,
    )
}

fn insights_of(successes: &Vec<Session>, memories: &Vec<Memory>, Ghost(ss): Ghost<
    Seq<SessionView>,
>) -> (r: Vec<String>)
    requires
        views(successes@) == ss.filter(|s: SessionView| is_success(s)),
    ensures
        views(r@) == insights(ss, views(memories@)),
{
    let mut out = completions_of(&take_first(successes, 3));
    let ghost a = views(out@);
    let strong_ones = select(
        memories,
        |m: &Memory| -> (b: bool)
            ensures
                b == is_strong(m@)
            { m.confidence.0 > TRUSTED },
        Ghost(|m: MemoryView| is_strong(m)),
    );
    proof {
        assert(views(strong_ones@).len() == strong_ones@.len());
    }
    if strong_ones.len() > 0 {
        let kind = dominant_of(&strong_ones);
        let n: usize = count_type(&strong_ones, kind);
        out.push(strong(kind.as_str(), n));
    }
    let ghost b = strengths(views(memories@));
    proof {
        assert(views(out@) =~= a + b);
    }
    let mut rest = texts(
        &take_first(memories, 3),
        |m: &Memory| -> (t: String)
            ensures
                t@ == latest_text(m@.title, m@.fragment_type.name())
            { latest(m.title.as_str(), m.fragment_type.as_str()) },
        Ghost(|m: MemoryView| latest_text(m.title, m.fragment_type.name())),
    );
    let ghost c = views(rest@);
    let ghost before = out@;
    let ghost tail = rest@;
    out.append(&mut rest);
    proof {
        assert(views(out@) =~= a + b + c);
    }
    take_first(&out, 8)
}

/// The part of the guides that were used more than once.
pub open spec fn practised_part(gs: Seq<GuideView>) -> Double {
    at_most_one(ratio(gs.filter(|g: GuideView| g.usage_count > 1).len(), gs.len()))
}

/// The health of a project before it is rounded: from its confidence, its
/// successes and the use of the guides.
pub open spec fn raw_health(ms: Seq<MemoryView>, successes: nat, sessions: nat, gs: Seq<GuideView>) ->
    Signed {
    let base = Signed { negative: false, size: ratio(1, 2) };
    let trust = if ms.len() == 0 {
        base
    } else {
        let avg = mean(ms.map_values(|m: MemoryView| m.confidence));
        base.plus(Signed { negative: avg.negative, size: avg.size.times(ratio(1, 5)) })
    };
    let success = if sessions == 0 {
        trust
    } else {
        trust.plus(
            Signed { negative: false, size: ratio(successes, sessions).times(ratio(3, 20)) },
        )
    };
    if gs.len() == 0 {
        success
    } else {
        success.plus(Signed { negative: false, size: practised_part(gs).times(ratio(3, 20)) })
    }
}

/// The health of a project, to the nearest hundredth, one at most.
pub open spec fn health(raw: Signed) -> Score {
    let hundredths = raw.size.times(whole(100)).evened();
    let s = coded_signed(
        Signed { negative: raw.negative, size: hundredths.over_by(whole(100)) },
    );
    if s.0 < UNIT {
        s
    } else {
        Score(UNIT)
    }
}

fn health_of(raw: Signed) -> (r: Score)
    requires
        raw.size.within(38_000),
    ensures
        r == health(raw),
{
    let hundred = from_whole(100);
    let scaled = raw.size.multiplied(hundred);
    proof {
        assert(raw.size.within(38_000) && hundred.within(74));
        assert(scaled.within(38_148));
    }
    let hundredths = scaled.to_evened();
    proof {
        assert(hundredths.within(38_148));
    }
    let size = hundredths.divided(hundred);
    proof {
        assert(size.within(38_276));
    }
    let s = Score::from_number(Signed { negative: raw.negative, size });
    if s.0 < UNIT {
        s
    } else {
        Score(UNIT)
    }
}

fn raw_health_of(memories: &Vec<Memory>, successes: usize, sessions: usize, guides: &Vec<Guide>) ->
    (r: Signed)
    ensures
        r == raw_health(
            views(memories@),
            successes as nat,
            sessions as nat,
            views(guides@),
        ),
        r.size.within(38_000),
{
    let mut h = Signed { negative: false, size: quotient(1, 2) };
    proof {
        assert(h.size.within(31_000));
    }
    if memories.len() > 0 {
        let cs = confidences(memories);
        let avg = mean_of(&cs);
        let fifth = quotient(1, 5);
        let part = avg.size.multiplied(fifth);
        proof {
            assert(avg.size.within(30_000) && fifth.within(210));
            assert(part.within(31_000));
        }
        h = h.added(Signed { negative: avg.negative, size: part }, Ghost(31_000));
    }
    proof {
        assert(h.size.within(31_074));
    }
    if sessions > 0 {
        let rate = quotient(successes as u128, sessions as u128);
        let weight = quotient(3, 20);
        let part = rate.multiplied(weight);
        proof {
            assert(rate.within(210) && weight.within(210));
            assert(part.within(31_074));
        }
        h = h.added(Signed { negative: false, size: part }, Ghost(31_074));
    }
    proof {
        assert(h.size.within(31_148));
    }
    if guides.len() > 0 {
        let n: usize = count(
            guides,
            |g: &Guide| -> (b: bool)
                ensures
                    b == (g@.usage_count > 1)
                { g.usage_count > 1 },
            Ghost(|g: GuideView| g.usage_count > 1),
        );
        let q = quotient(n as u128, guides.len() as u128);
        let top = cap(q);
        let weight = quotient(3, 20);
        let part = top.multiplied(weight);
        proof {
            assert(q.within(210) && weight.within(210));
            assert(top.within(210));
            assert(part.within(31_148));
        }
        h = h.added(Signed { negative: false, size: part }, Ghost(31_148));
    }
    h
}

/// The confidences of memories.
pub fn confidences(memories: &Vec<Memory>) -> (r: Vec<Score>)
    ensures
        r@ == views(memories@).map_values(|m: MemoryView| m.confidence),
{
    let mut out: Vec<Score> = Vec::new();
    let mut i: usize = 0;
    while i < memories.len()
        invariant
            i <= memories@.len(),
            out@.len() == i,
            forall|j: int| 0 <= j < i ==> #[trigger] out@[j] == memories@[j]@.confidence,
        decreases memories@.len() - i,
    {
        out.push(memories[i].confidence);
        i += 1;
    }
    proof {
        assert(out@ =~= views(memories@).map_values(|m: MemoryView| m.confidence));
    }
    out
}

/// A project in figures.
pub open spec fn progress_of(
    project: Seq<char>,
    sessions: Seq<SessionView>,
    memories: Seq<MemoryView>,
    guides: Seq<GuideView>,
    now: u64,
) -> ProjectProgressView {
    let ss = sessions_in(sessions, project);
    let ms = memories_in(memories, project);
    ProjectProgressView {
        project,
        total_sessions: ss.len() as usize,
        total_memories: ms.len() as usize,
        total_guides: guides.len() as usize,
        knowledge_growth_rate: growth(ms, now) as u128,
        skill_coverage: coverage(ss, guides, now),
        recent_insights: insights(ss, ms),
        health_score: health(
            raw_health(ms, ss.filter(|s: SessionView| is_success(s)).len(), ss.len(), guides),
        ),
    }
}

/// A project in figures. The counters of the guides and the technologies of the
/// sessions must add up to numbers of 32 bits.
pub fn get_project_analytics(
    project: &str,
    sessions: &Vec<Session>,
    memories: &Vec<Memory>,
    guides: &Vec<Guide>,
    now_millis: u64,
) -> (r: ProjectProgress)
    requires
        total_usage(views(guides@)) <= u32::MAX,
        total_techs(views(sessions@)) <= u32::MAX,
    ensures
        r@ == progress_of(
            project@,
            views(sessions@),
            views(memories@),
            views(guides@),
            now_millis,
        ),
{
    let project_lower = lower(project);
    let found = select(
        sessions,
        |s: &Session| -> (b: bool)
            ensures
                b == belongs(s@.project, project@)
            { belongs_to(&s.project, project_lower.as_str(), Ghost(project@)) },
        Ghost(|s: SessionView| belongs(s.project, project@)),
    );
    let project_sessions = rank(
        &found,
        |s: &Session| -> (k: (i128, u128))
            ensures
                k.0 == -s@.started_at.0 && k.1 == 0
            { (-(s.started_at.0 as i128), 0) },
        Ghost(|s: SessionView| (-(s.started_at.0 as int), 0int)),
    );
    let kept = select(
        memories,
        |m: &Memory| -> (b: bool)
            ensures
                b == belongs(m@.project, project@)
            { belongs_to(&m.project, project_lower.as_str(), Ghost(project@)) },
        Ghost(|m: MemoryView| belongs(m.project, project@)),
    );
    let project_memories = rank(
        &kept,
        |m: &Memory| -> (k: (i128, u128))
            ensures
                k.0 == -m@.created_at.0 && k.1 == 0
            { (-(m.created_at.0 as i128), 0) },
        Ghost(|m: MemoryView| (-(m.created_at.0 as int), 0int)),
    );
    let ghost ss = views(project_sessions@);
    let ghost ms = views(project_memories@);
    proof {
        lemma_techs_of_some(views(sessions@), project@);
        assert(ss.len() == project_sessions@.len());
        assert(ms.len() == project_memories@.len());
    }
    let successes = select(
        &project_sessions,
        |s: &Session| -> (b: bool)
            ensures
                b == is_success(s@)
            {
                match s.outcome {
                    Some(TaskOutcome::Success) => true,
                    _ => false,
                }
            },
        Ghost(|s: SessionView| is_success(s)),
    );
    proof {
        assert(views(successes@).len() == successes@.len());
    }
    let raw = raw_health_of(
        &project_memories,
        successes.len(),
        project_sessions.len(),
        guides,
    );
    ProjectProgress {
        project: project.to_owned(),
        total_sessions: project_sessions.len(),
        total_memories: project_memories.len(),
        total_guides: guides.len(),
        knowledge_growth_rate: growth_of(&project_memories, now_millis),
        skill_coverage: coverage_in(&project_sessions, guides, now_millis),
        recent_insights: insights_of(&successes, &project_memories, Ghost(ss)),
        health_score: health_of(raw),
    }
}

/// Some of the sessions name no more technologies than all of them.
proof fn lemma_techs_of_some(all: Seq<SessionView>, project: Seq<char>)
    ensures
        total_techs(sessions_in(all, project)) <= total_techs(all),
{
    let some = all.filter(|s: SessionView| belongs(s.project, project));
    lemma_techs_filter(all, |s: SessionView| belongs(s.project, project));
    let key = |s: SessionView| (-(s.started_at.0 as int), 0int);
    lemma_techs_ranked(some, key);
}

proof fn lemma_techs_filter(all: Seq<SessionView>, keep: spec_fn(SessionView) -> bool)
    ensures
        total_techs(all.filter(keep)) <= total_techs(all),
    decreases all.len(),
{
    reveal(Seq::filter);
    if all.len() > 0 {
        lemma_techs_filter(all.drop_last(), keep);
        if keep(all.last()) {
            let f = all.filter(keep);
            assert(f.drop_last() =~= all.drop_last().filter(keep));
        }
    }
}

proof fn lemma_techs_ranked(
    some: Seq<SessionView>,
    key: spec_fn(SessionView) -> crate::rank::Key,
)
    ensures
        total_techs(ranked(some, key)) == total_techs(some),
{
    lemma_techs_order(some, some.map_values(key), some.len() as int);
    assert(some.take(some.len() as int) =~= some);
}

proof fn lemma_techs_order(some: Seq<SessionView>, keys: Seq<crate::rank::Key>, n: int)
    requires
        0 <= n <= some.len(),
        keys.len() == some.len(),
    ensures
        total_techs(crate::rank::picked(some, crate::rank::order_first(keys, n))) == total_techs(
            some.take(n),
        ),
    decreases n,
{
    if n > 0 {
        lemma_techs_order(some, keys, n - 1);
        let o = crate::rank::order_first(keys, n - 1);
        crate::rank::lemma_order_first(keys, n - 1);
        let p = crate::rank::place(o, keys, n - 1, 0);
        crate::rank::lemma_place(o, keys, n - 1, 0);
        let a = crate::rank::picked(some, o);
        let b = crate::rank::picked(some, o.insert(p, n - 1));
        assert(b =~= a.insert(p, some[n - 1]));
        lemma_techs_insert(a, p, some[n - 1]);
        assert(some.take(n).drop_last() =~= some.take(n - 1));
    } else {
        assert(some.take(0) =~= Seq::empty());
        assert(crate::rank::picked(some, crate::rank::order_first(keys, 0)) =~= Seq::empty());
    }
}

proof fn lemma_techs_insert(a: Seq<SessionView>, p: int, s: SessionView)
    requires
        0 <= p <= a.len(),
    ensures
        total_techs(a.insert(p, s)) == total_techs(a) + s.technologies.len(),
    decreases a.len(),
{
    let b = a.insert(p, s);
    if p == a.len() {
        assert(b.drop_last() =~= a);
    } else {
        assert(b.drop_last() =~= a.drop_last().insert(p, s));
        lemma_techs_insert(a.drop_last(), p, s);
    }
}

/// The projects that sessions and memories name, in the order in which they
/// come first.
pub open spec fn projects_in(ss: Seq<SessionView>, ms: Seq<MemoryView>) -> Seq<Seq<char>> {
    named_memories(named_sessions(Seq::empty(), ss), ms)
}

pub open spec fn named_sessions(list: Seq<Seq<char>>, ss: Seq<SessionView>) -> Seq<Seq<char>>
    decreases ss.len(),
{
    if ss.len() == 0 {
        list
    } else {
        let rest = named_sessions(list, ss.drop_last());
        match ss.last().project {
            Some(p) => with_text(rest, p),
            None => rest,
        }
    }
}

pub open spec fn named_memories(list: Seq<Seq<char>>, ms: Seq<MemoryView>) -> Seq<Seq<char>>
    decreases ms.len(),
{
    if ms.len() == 0 {
        list
    } else {
        let rest = named_memories(list, ms.drop_last());
        match ms.last().project {
            Some(p) => with_text(rest, p),
            None => rest,
        }
    }
}

fn projects_of(sessions: &Vec<Session>, memories: &Vec<Memory>) -> (r: Vec<String>)
    ensures
        views(r@) == projects_in(views(sessions@), views(memories@)),
{
    let ghost ss = views(sessions@);
    let ghost ms = views(memories@);
    let mut out: Vec<String> = Vec::new();
    let mut i: usize = 0;
    proof {
        assert(ss.take(0) =~= Seq::empty());
        assert(views(out@) =~= Seq::empty());
    }
    while i < sessions.len()
        invariant
            i <= sessions@.len(),
            ss == views(sessions@),
            views(out@) == named_sessions(Seq::empty(), ss.take(i as int)),
        decreases sessions@.len() - i,
    {
        proof {
            let t = ss.take(i + 1);
            assert(t.drop_last() =~= ss.take(i as int));
            assert(t.last() == sessions@[i as int]@);
        }
        if let Some(p) = &sessions[i].project {
            add_text(&mut out, p.as_str());
        }
        i += 1;
    }
    let ghost first_part = views(out@);
    let mut j: usize = 0;
    proof {
        assert(ss.take(ss.len() as int) =~= ss);
        assert(ms.take(0) =~= Seq::empty());
    }
    while j < memories.len()
        invariant
            j <= memories@.len(),
            ms == views(memories@),
            views(out@) == named_memories(first_part, ms.take(j as int)),
        decreases memories@.len() - j,
    {
        proof {
            let t = ms.take(j + 1);
            assert(t.drop_last() =~= ms.take(j as int));
            assert(t.last() == memories@[j as int]@);
        }
        if let Some(p) = &memories[j].project {
            add_text(&mut out, p.as_str());
        }
        j += 1;
    }
    proof {
        assert(ms.take(ms.len() as int) =~= ms);
    }
    out
}

/// All projects in figures.
pub fn get_all_projects_analytics(
    sessions: &Vec<Session>,
    memories: &Vec<Memory>,
    guides: &Vec<Guide>,
    now_millis: u64,
) -> (r: Vec<ProjectProgress>)
    requires
        total_usage(views(guides@)) <= u32::MAX,
        total_techs(views(sessions@)) <= u32::MAX,
    ensures
        views(r@) == projects_in(views(sessions@), views(memories@)).map_values(
            |p: Seq<char>|
                progress_of(p, views(sessions@), views(memories@), views(guides@), now_millis),
        ),
{
    let names = projects_of(sessions, memories);
    mapped(
        &names,
        |p: &String| -> (x: ProjectProgress)
            ensures
                x@ == progress_of(
                    p@,
                    views(sessions@),
                    views(memories@),
                    views(guides@),
                    now_millis,
                )
            { get_project_analytics(p.as_str(), sessions, memories, guides, now_millis) },
        Ghost(
            |p: Seq<char>|
                progress_of(p, views(sessions@), views(memories@), views(guides@), now_millis),
        ),
    )
}

/// The head of a report.
pub open spec fn progress_head_text(
    project: Seq<char>,
    health: Seq<char>,
    sessions: nat,
    memories: nat,
    guides: nat,
    growth: Seq<char>,
) -> Seq<char> {
    "=== PROJECT ANALYTICS: "@ + project + " ===\n\nHealth Score: "@ + health + "%\nSessions: "@ + dec(sessions) + " | Memories: "@ + dec(memories) + " | Guides: "@ + dec(guides) + "\nKnowledge Growth Rate: "@ + growth + "x (last 7 days vs prior 7 days)\n"@
}

pub fn progress_head(
    project: &str,
    health: &str,
    sessions: usize,
    memories: usize,
    guides: usize,
    growth: &str,
) -> (r: String)
    ensures
        r@ == progress_head_text(project@, health@, sessions as nat, memories as nat, guides as nat, growth@),
{
    let mut out = "=== PROJECT ANALYTICS: ".to_owned();
    out.append(project);
    out.append(" ===\n\nHealth Score: ");
    out.append(health);
    out.append("%\nSessions: ");
    out.append(decimal(sessions as u64).as_str());
    out.append(" | Memories: ");
    out.append(decimal(memories as u64).as_str());
    out.append(" | Guides: ");
    out.append(decimal(guides as u64).as_str());
    out.append("\nKnowledge Growth Rate: ");
    out.append(growth);
    out.append("x (last 7 days vs prior 7 days)\n");
    out
}

/// A category in a report.
pub open spec fn skill_line_text(icon: Seq<char>, category: Seq<char>, n: nat) -> Seq<char> {
    "  "@ + icon + " "@ + category + ": "@ + dec(n) + "x usage\n"@
}

pub fn skill_line(icon: &str, category: &str, n: u64) -> (r: String)
    ensures
        r@ == skill_line_text(icon@, category@, n as nat),
{
    let mut out = "  ".to_owned();
    out.append(icon);
    out.append(" ");
    out.append(category);
    out.append(": ");
    out.append(decimal(n).as_str());
    out.append("x usage\n");
    out
}

/// An insight in a report.
pub open spec fn insight_line_text(insight: Seq<char>) -> Seq<char> {
    "  - "@ + insight + "\n"@
}

pub fn insight_line(insight: &str) -> (r: String)
    ensures
        r@ == insight_line_text(insight@),
{
    let mut out = "  - ".to_owned();
    out.append(insight);
    out.append("\n");
    out
}

/// The arrow of a trend.
pub open spec fn trend_icon(trend: Seq<char>) -> Seq<char> {
    if trend == "growing"@ {
        "↑"@
    } else if trend == "declining"@ {
        "↓"@
    } else {
        "→"@
    }
}

fn icon_of(trend: &str) -> (r: &'static str)
    ensures
        r@ == trend_icon(trend@),
{
    if same(trend, "growing") {
        "↑"
    } else if same(trend, "declining") {
        "↓"
    } else {
        "→"
    }
}

/// The categories of a report.
pub open spec fn skills_part(list: Seq<SkillCoverageView>) -> Seq<char> {
    if list.len() == 0 {
        Seq::empty()
    } else {
        "\nSkill Coverage:\n"@ + written(
            first(list, 10),
            |s: SkillCoverageView|
                skill_line_text(trend_icon(s.trend), s.category, s.count as nat),
        )
    }
}

/// The insights of a report.
pub open spec fn insights_part(list: Seq<Seq<char>>) -> Seq<char> {
    if list.len() == 0 {
        Seq::empty()
    } else {
        "\nRecent Activity:\n"@ + written(list, |x: Seq<char>| insight_line_text(x))
    }
}

/// A project in figures, as text.
pub open spec fn progress_text(p: ProjectProgressView) -> Seq<char> {
    progress_head_text(
        p.project,
        percent_text(p.health_score),
        p.total_sessions as nat,
        p.total_memories as nat,
        p.total_guides as nat,
        short_places(p.knowledge_growth_rate as nat),
    ) + skills_part(p.skill_coverage) + insights_part(p.recent_insights)
        + "\n===================="@
}

/// A project in figures, as text.
pub fn format_project_progress(progress: &ProjectProgress) -> (r: String)
    ensures
        r@ == progress_text(progress@),
{
    let mut out = progress_head(
        progress.project.as_str(),
        percent_string(progress.health_score).as_str(),
        progress.total_sessions,
        progress.total_memories,
        progress.total_guides,
        short_places_text(progress.knowledge_growth_rate).as_str(),
    );
    let ghost head = out@;
    proof {
        assert(views(progress.skill_coverage@).len() == progress.skill_coverage@.len());
        assert(views(progress.recent_insights@).len() == progress.recent_insights@.len());
        assert(head + Seq::<char>::empty() =~= head);
    }
    if progress.skill_coverage.len() > 0 {
        let mut part = "\nSkill Coverage:\n".to_owned();
        append_each(
            &mut part,
            &take_first(&progress.skill_coverage, 10),
            |s: &SkillCoverage| -> (t: String)
                ensures
                    t@ == skill_line_text(trend_icon(s@.trend), s@.category, s@.count as nat)
                {
                    skill_line(icon_of(s.trend.as_str()), s.category.as_str(), s.count as u64)
                },
            Ghost(
                |s: SkillCoverageView|
                    skill_line_text(trend_icon(s.trend), s.category, s.count as nat),
            ),
        );
        out.append(part.as_str());
    }
    let ghost mid = out@;
    proof {
        assert(mid == head + skills_part(progress@.skill_coverage));
        assert(mid + Seq::<char>::empty() =~= mid);
    }
    if progress.recent_insights.len() > 0 {
        let mut part = "\nRecent Activity:\n".to_owned();
        append_each(
            &mut part,
            &progress.recent_insights,
            |x: &String| -> (t: String)
                ensures
                    t@ == insight_line_text(x@)
                { insight_line(x.as_str()) },
            Ghost(|x: Seq<char>| insight_line_text(x)),
        );
        out.append(part.as_str());
    }
    out.append("\n====================");
    out
}

} // verus!
