//! What earlier sessions teach: dead ends, lessons and warnings.

use crate::canonical::repository::by_id;
use crate::daemon::counters::{lemma_registry_room_mono, lemma_touched_room};
use crate::daemon::dispatcher::Dispatcher;
use crate::daemon::registry::{changed_attempt, touched, FrontendRegistry, RegistryView};
use crate::daemon::tools::common::{text_or, text_or_else};
use crate::daemon::tools::detail::part_if;
use crate::domain::id::SessionHandle;
use crate::domain::memory::{FragmentType, Memory, MemoryView};
use crate::domain::session::{
    Attempt, AttemptOutcome, AttemptView, Session, SessionView,
};
use crate::domain::state::{has_session, StateView};
use crate::lists::{append_each, first, mapped, rank, select, take_first, written};
use crate::overlap::{byte_len, bytes_of};
use crate::rank::ranked;
use crate::text::{
    add_texts, first_chars, opt_view, same, take_chars, trim, trimmed, views, with_texts,
};
use crate::domain::score::Score;
use vstd::prelude::*;

verus! {

/// An attempt that led nowhere.
#[derive(Debug)]
pub struct DeadEnd {
    pub handle: SessionHandle,
    pub seq: u32,
    pub approach: String,
    pub critique: Option<String>,
}

/// The content of this record.
#[verifier::ext_equal]
pub struct DeadEndView {
    pub handle: SessionHandle,
    pub seq: u32,
    pub approach: Seq<char>,
    pub critique: Option<Seq<char>>,
}

impl View for DeadEnd {
    type V = DeadEndView;

    open spec fn view(&self) -> DeadEndView {
        DeadEndView {
            handle: self.handle,
            seq: self.seq,
            approach: self.approach@,
            critique: opt_view(self.critique),
        }
    }
}

impl Clone for DeadEnd {
    fn clone(&self) -> (r: Self)
        ensures
            r@ == self@,
    {
        DeadEnd {
            handle: self.handle,
            seq: self.seq,
            approach: self.approach.clone(),
            critique: self.critique.clone(),
        }
    }
}

/// Below this confidence an attempt is not brought up again: two tenths.
pub const FORGOTTEN: i64 = 4_596_373_779_694_328_218;

/// How much an attempt that is brought up gains: fifteen thousandths.
pub const RECALL_STEP: i64 = 4_579_800_533_065_604_792;

/// Whether an attempt led nowhere, and is still worth knowing.
pub open spec fn is_dead(a: AttemptView) -> bool {
    (a.outcome is Rejected || a.outcome is Partial) && a.confidence.0 >= FORGOTTEN
}

/// Whether a session was about the same kind of task.
pub open spec fn is_similar(s: SessionView, task_type: Seq<char>, project: Option<Seq<char>>) ->
    bool {
    s.task_type == Some(task_type) && (project is None || s.project is None || s.project == project)
}

pub open spec fn dead_end(s: SessionView, a: AttemptView) -> DeadEndView {
    DeadEndView { handle: s.handle, seq: a.seq, approach: a.approach, critique: a.critique }
}

/// The dead ends of the first `n` sessions.
pub open spec fn dead_ends_in(
    ss: Seq<SessionView>,
    task_type: Seq<char>,
    project: Option<Seq<char>>,
    n: int,
) -> Seq<DeadEndView>
    decreases n,
{
    if n <= 0 {
        Seq::empty()
    } else {
        let rest = dead_ends_in(ss, task_type, project, n - 1);
        let s = ss[n - 1];
        if is_similar(s, task_type, project) {
            rest + s.attempts.filter(|a: AttemptView| is_dead(a)).map_values(
                |a: AttemptView| dead_end(s, a),
            )
        } else {
            rest
        }
    }
}

/// The dead ends that are brought up: those with the longest critique first,
/// fifteen at most.
pub open spec fn dead_ends(
    ss: Seq<SessionView>,
    task_type: Seq<char>,
    project: Option<Seq<char>>,
) -> Seq<DeadEndView> {
    first(
        ranked(
            dead_ends_in(ss, task_type, project, ss.len() as int),
            |d: DeadEndView| (-(byte_len(text_or(d.critique, ""@)) as int), 0int),
        ),
        15,
    )
}

pub open spec fn said(l: Seq<char>) -> bool {
    trimmed(l).len() > 0
}

/// The lessons of the first `n` sessions.
pub open spec fn lessons_in(
    ss: Seq<SessionView>,
    task_type: Seq<char>,
    project: Option<Seq<char>>,
    n: int,
) -> Seq<Seq<char>>
    decreases n,
{
    if n <= 0 {
        Seq::empty()
    } else {
        let rest = lessons_in(ss, task_type, project, n - 1);
        let s = ss[n - 1];
        if is_similar(s, task_type, project) && s.outcome is Some {
            with_texts(rest, s.lessons.filter(|l: Seq<char>| said(l)))
        } else {
            rest
        }
    }
}

/// The lessons that are brought up: five at most.
pub open spec fn lessons_of(
    ss: Seq<SessionView>,
    task_type: Seq<char>,
    project: Option<Seq<char>>,
) -> Seq<Seq<char>> {
    first(lessons_in(ss, task_type, project, ss.len() as int), 5)
}

/// The live warnings of a project, and those of none.
pub open spec fn warnings_of(s: StateView, project: Option<Seq<char>>) -> Seq<MemoryView> {
    by_id(s.memories).filter(
        |m: MemoryView|
            m.lifecycle is Live && m.fragment_type is Warning && (project is None || m.project
                is None || m.project == project),
    )
}

/// What follows.
pub open spec fn similar_head_text(kind: Seq<char>) -> Seq<char> {
    "\n\n## Prior reasoning on similar "@ + kind + " tasks"@
}

pub fn similar_head(kind: &str) -> (r: String)
    ensures
        r@ == similar_head_text(kind@),
{
    let mut out = "\n\n## Prior reasoning on similar ".to_owned();
    out.append(kind);
    out.append(" tasks");
    out
}

/// A dead end.
pub open spec fn dead_line_text(approach: Seq<char>, critique: Seq<char>) -> Seq<char> {
    "\n- Tried: "@ + approach + ". Rejected because: "@ + critique
}

pub fn dead_line(approach: &str, critique: &str) -> (r: String)
    ensures
        r@ == dead_line_text(approach@, critique@),
{
    let mut out = "\n- Tried: ".to_owned();
    out.append(approach);
    out.append(". Rejected because: ");
    out.append(critique);
    out
}

/// A lesson or a warning.
pub open spec fn plain_line_text(t: Seq<char>) -> Seq<char> {
    "\n- "@ + t
}

pub fn plain_line(t: &str) -> (r: String)
    ensures
        r@ == plain_line_text(t@),
{
    let mut out = "\n- ".to_owned();
    out.append(t);
    out
}

pub open spec fn dead_end_line(d: DeadEndView) -> Seq<char> {
    dead_line_text(d.approach, text_or(d.critique, "unknown"@))
}

pub open spec fn warning_line(m: MemoryView) -> Seq<char> {
    plain_line_text(
        if trimmed(m.title).len() > 0 {
            m.title
        } else {
            first_chars(m.fragment, 120)
        },
    )
}

/// What earlier sessions teach, as text.
pub open spec fn continuity_text(
    task_type: Seq<char>,
    dead: Seq<DeadEndView>,
    lessons: Seq<Seq<char>>,
    warnings: Seq<MemoryView>,
) -> Seq<char> {
    if dead.len() == 0 && lessons.len() == 0 && warnings.len() == 0 {
        ""@
    } else {
        similar_head_text(task_type) + part_if(
            dead.len() > 0,
            "\n### Dead ends (don't repeat)"@ + written(
                dead,
                |d: DeadEndView| dead_end_line(d),
            ),
        ) + part_if(
            lessons.len() > 0,
            "\n### What worked / lessons"@ + written(
                lessons,
                |l: Seq<char>| plain_line_text(l),
            ),
        ) + part_if(
            warnings.len() > 0,
            "\n### Warnings"@ + written(
                first(warnings, 5),
                |m: MemoryView| warning_line(m),
            ),
        )
    }
}

/// The registry after an attempt was looked at and gained confidence.
pub open spec fn boosted(
    r: RegistryView,
    h: SessionHandle,
    seq: u32,
    delta: Score,
    now: u64,
) -> RegistryView {
    if has_session(r.sessions, h) {
        r.with_change(
            h,
            |s: SessionView|
                changed_attempt(
                    s,
                    seq,
                    |a: AttemptView| touched(a, a.confidence.up(delta), now),
                ),
        )
    } else {
        r
    }
}

/// The registry after the first `n` dead ends were brought up.
pub open spec fn recalled_dead_ends(r: RegistryView, ds: Seq<DeadEndView>, n: int, now: u64) ->
    RegistryView
    decreases n,
{
    if n <= 0 {
        r
    } else {
        boosted(
            recalled_dead_ends(r, ds, n - 1, now),
            ds[n - 1].handle,
            ds[n - 1].seq,
            Score(RECALL_STEP),
            now,
        )
    }
}

fn similar(s: &Session, task_type: &str, project: &Option<String>) -> (r: bool)
    ensures
        r == is_similar(s@, task_type@, opt_view(*project)),
{
    let same_kind = match &s.task_type {
        Some(t) => same(t.as_str(), task_type),
        None => false,
    };
    let same_project = match (project, &s.project) {
        (Some(p), Some(sp)) => same(p.as_str(), sp.as_str()),
        _ => true,
    };
    same_kind && same_project
}

fn dead_ends_of(s: &Session) -> (r: Vec<DeadEnd>)
    ensures
        views(r@) == s@.attempts.filter(|a: AttemptView| is_dead(a)).map_values(
            |a: AttemptView| dead_end(s@, a),
        ),
{
    let dead = select(
        &s.attempts,
        |a: &Attempt| -> (b: bool)
            ensures
                b == is_dead(a@)
            {
                match a.outcome {
                    AttemptOutcome::Rejected => a.confidence.0 >= FORGOTTEN,
                    AttemptOutcome::Partial => a.confidence.0 >= FORGOTTEN,
                    AttemptOutcome::Promising => false,
                }
            },
        Ghost(|a: AttemptView| is_dead(a)),
    );
    mapped(
        &dead,
        |a: &Attempt| -> (d: DeadEnd)
            ensures
                d@ == dead_end(s@, a@)
            {
                DeadEnd {
                    handle: s.handle,
                    seq: a.seq,
                    approach: a.approach.clone(),
                    critique: a.critique.clone(),
                }
            },
        Ghost(|a: AttemptView| dead_end(s@, a)),
    )
}

fn find_dead_ends(sessions: &Vec<Session>, task_type: &str, project: &Option<String>) -> (r: Vec<
    DeadEnd,
>)
    ensures
        views(r@) == dead_ends(views(sessions@), task_type@, opt_view(*project)),
        r@.len() <= 15,
{
    let ghost ss = views(sessions@);
    let ghost pv = opt_view(*project);
    let mut all: Vec<DeadEnd> = Vec::new();
    let mut i: usize = 0;
    proof {
        assert(views(all@) =~= Seq::empty());
    }
    while i < sessions.len()
        invariant
            i <= sessions@.len(),
            ss == views(sessions@),
            pv == opt_view(*project),
            views(all@) == dead_ends_in(ss, task_type@, pv, i as int),
        decreases sessions@.len() - i,
    {
        let s = &sessions[i];
        proof {
            assert(ss[i as int] == s@);
        }
        if similar(s, task_type, project) {
            let mut more = dead_ends_of(s);
            let ghost before = views(all@);
            let ghost added = views(more@);
            all.append(&mut more);
            proof {
                assert(views(all@) =~= before + added);
            }
        }
        i += 1;
    }
    let best = rank(
        &all,
        |d: &DeadEnd| -> (k: (i128, u128))
            ensures
                k.0 == -byte_len(text_or(d@.critique, ""@)) && k.1 == 0
            {
                let n: u128 = bytes_of(text_or_else(&d.critique, "").as_str());
                (-(n as i128), 0)
            },
        Ghost(|d: DeadEndView| (-(byte_len(text_or(d.critique, ""@)) as int), 0int)),
    );
    take_first(&best, 15)
}

fn find_lessons(sessions: &Vec<Session>, task_type: &str, project: &Option<String>) -> (r: Vec<
    String,
>)
    ensures
        views(r@) == lessons_of(views(sessions@), task_type@, opt_view(*project)),
{
    let ghost ss = views(sessions@);
    let ghost pv = opt_view(*project);
    let mut all: Vec<String> = Vec::new();
    let mut i: usize = 0;
    proof {
        assert(views(all@) =~= Seq::empty());
    }
    while i < sessions.len()
        invariant
            i <= sessions@.len(),
            ss == views(sessions@),
            pv == opt_view(*project),
            views(all@) == lessons_in(ss, task_type@, pv, i as int),
        decreases sessions@.len() - i,
    {
        let s = &sessions[i];
        proof {
            assert(ss[i as int] == s@);
        }
        if similar(s, task_type, project) && s.outcome.is_some() {
            let more = select(
                &s.lessons,
                |l: &String| -> (b: bool)
                    ensures
                        b == said(l@)
                    { !trim(l.as_str()).as_str().is_empty() },
                Ghost(|l: Seq<char>| said(l)),
            );
            add_texts(&mut all, &more);
        }
        i += 1;
    }
    take_first(&all, 5)
}

fn find_warnings(disp: &Dispatcher, project: &Option<String>) -> (r: Vec<Memory>)
    ensures
        views(r@) == warnings_of(disp@.store, opt_view(*project)),
{
    let all = disp.repo.all_memories();
    let ghost pv = opt_view(*project);
    select(
        &all,
        |m: &Memory| -> (b: bool)
            ensures
                b == (m@.lifecycle is Live && m@.fragment_type is Warning && (pv is None
                    || m@.project is None || m@.project == pv))
            {
                let in_scope = match (project, &m.project) {
                    (Some(p), Some(mp)) => same(mp.as_str(), p.as_str()),
                    _ => true,
                };
                m.lifecycle.is_recallable() && matches!(m.fragment_type, FragmentType::Warning)
                    && in_scope
            },
        Ghost(
            |m: MemoryView|
                m.lifecycle is Live && m.fragment_type is Warning && (pv is None || m.project
                    is None || m.project == pv),
        ),
    )
}

fn continuity_string(
    task_type: &str,
    dead: &Vec<DeadEnd>,
    lessons: &Vec<String>,
    warnings: &Vec<Memory>,
) -> (r: String)
    ensures
        r@ == continuity_text(task_type@, views(dead@), views(lessons@), views(warnings@)),
{
    proof {
        assert(views(dead@).len() == dead@.len());
        assert(views(lessons@).len() == lessons@.len());
        assert(views(warnings@).len() == warnings@.len());
    }
    if dead.len() == 0 && lessons.len() == 0 && warnings.len() == 0 {
        return "".to_owned();
    }
    let mut out = similar_head(task_type);
    if dead.len() > 0 {
        let mut part = "\n### Dead ends (don't repeat)".to_owned();
        append_each(
            &mut part,
            dead,
            |d: &DeadEnd| -> (t: String)
                ensures
                    t@ == dead_end_line(d@)
                {
                    dead_line(
                        d.approach.as_str(),
                        text_or_else(&d.critique, "unknown").as_str(),
                    )
                },
            Ghost(|d: DeadEndView| dead_end_line(d)),
        );
        out.append(part.as_str());
    } else {
        out.append("");
    }
    if lessons.len() > 0 {
        let mut part = "\n### What worked / lessons".to_owned();
        append_each(
            &mut part,
            lessons,
            |l: &String| -> (t: String)
                ensures
                    t@ == plain_line_text(l@)
                { plain_line(l.as_str()) },
            Ghost(|l: Seq<char>| plain_line_text(l)),
        );
        out.append(part.as_str());
    } else {
        out.append("");
    }
    if warnings.len() > 0 {
        let mut part = "\n### Warnings".to_owned();
        let some = take_first(warnings, 5);
        append_each(
            &mut part,
            &some,
            |m: &Memory| -> (t: String)
                ensures
                    t@ == warning_line(m@)
                {
                    if trim(m.title.as_str()).as_str().is_empty() {
                        plain_line(take_chars(m.fragment.as_str(), 120).as_str())
                    } else {
                        plain_line(m.title.as_str())
                    }
                },
            Ghost(|m: MemoryView| warning_line(m)),
        );
        out.append(part.as_str());
    } else {
        out.append("");
    }
    out
}

fn recall_dead_ends(reg: &mut FrontendRegistry, dead: &Vec<DeadEnd>, now: u64)
    requires
        old(reg)@.wf(),
        old(reg)@.room(dead@.len() as int),
    ensures
        final(reg)@.wf(),
        final(reg)@ == recalled_dead_ends(old(reg)@, views(dead@), dead@.len() as int, now),
{
    let ghost start = reg@;
    let ghost ds = views(dead@);
    let mut i: usize = 0;
    while i < dead.len()
        invariant
            i <= dead@.len(),
            ds == views(dead@),
            reg@.wf(),
            reg@.room(dead@.len() - i),
            reg@ == recalled_dead_ends(start, ds, i as int, now),
        decreases dead@.len() - i,
    {
        proof {
            assert(ds[i as int] == dead@[i as int]@);
            lemma_registry_room_mono(reg@, 1, dead@.len() - i);
            lemma_registry_room_mono(reg@, dead@.len() - i - 1, dead@.len() - i);
            lemma_touched_room(
                reg@,
                dead@[i as int].handle,
                dead@[i as int].seq,
                |a: AttemptView| touched(a, a.confidence.up(Score(RECALL_STEP)), now),
                dead@.len() - i - 1,
            );
        }
        reg.boost_attempt(dead[i].handle, dead[i].seq, Score(RECALL_STEP), now);
        i += 1;
    }
}

/// What earlier sessions teach on a kind of task. The dead ends that are
/// brought up gain confidence.
pub fn build_continuity_recall(
    disp: &mut Dispatcher,
    task_type: &str,
    project: &Option<String>,
    now: u64,
) -> (r: String)
    requires
        old(disp)@.wf(),
        old(disp)@.registry.room(15),
    ensures
        final(disp)@.wf(),
        final(disp)@.store == old(disp)@.store,
        final(disp)@.namespaces == old(disp)@.namespaces,
        ({
            let ss = old(disp)@.registry.sessions;
            let dead = dead_ends(ss, task_type@, opt_view(*project));
            &&& final(disp)@.registry == recalled_dead_ends(
                old(disp)@.registry,
                dead,
                dead.len() as int,
                now,
            )
            &&& r@ == continuity_text(
                task_type@,
                dead,
                lessons_of(ss, task_type@, opt_view(*project)),
                warnings_of(old(disp)@.store, opt_view(*project)),
            )
        }),
{
    let sessions = disp.registry.all_sessions_owned();
    let dead = find_dead_ends(&sessions, task_type, project);
    let lessons = find_lessons(&sessions, task_type, project);
    let warnings = find_warnings(disp, project);
    let text = continuity_string(task_type, &dead, &lessons, &warnings);
    proof {
        assert(views(dead@).len() == dead@.len());
        lemma_registry_room_mono(disp@.registry, dead@.len() as int, 15);
    }
    recall_dead_ends(&mut disp.registry, &dead, now);
    text
}

} // verus!
