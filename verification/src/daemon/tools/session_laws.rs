//! What holds of everything that a session brings up and leaves behind.

use crate::canonical::repository::by_id;
use crate::compatibility::lemma::tool_args::SessionStartArgs;
use crate::daemon::dispatcher::DispatcherView;
use crate::daemon::envelope::IpcEnvelope;
use crate::daemon::registry::{attempt_place, RegistryView};
use crate::daemon::tools::add::noted;
use crate::daemon::tools::common::text_or;
use crate::daemon::tools::continuity::{
    boosted, continuity_text, dead_end, dead_end_line, dead_ends, dead_ends_in, is_dead, is_similar,
    lessons_in, lessons_of, plain_line_text, recalled_dead_ends, said, similar_head_text,
    warning_line, warnings_of, DeadEndView,
};
use crate::daemon::tools::detail::part_if;
use crate::daemon::tools::read::ids_of;
use crate::daemon::tools::recall_laws::lemma_by_id;
use crate::daemon::tools::sessions::{
    decayed, loaded_item, names_of, pending, pending_text, preloaded, read_noted, session_start,
    start_head_text, start_text, started, task_text, technologies_line_text, trusted, DECAY_STEP,
};
use crate::daemon::tools::suggest::{suggested, suggestions_text, GuideSuggestionView};
use crate::domain::id::{uuid_text, SessionHandle};
use crate::domain::memory::{Instant, MemoryView};
use crate::domain::score::Score;
use crate::domain::session::{AttemptView, SessionView, SuggestionView};
use crate::domain::state::{has_session, StateView};
use crate::lists::{first, lemma_written_holds, written};
use crate::overlap::byte_len;
use crate::rank::{
    lemma_filter_keeps, lemma_filter_members, lemma_ranked, lemma_ranked_order, ranked,
};
use crate::text::{joined, law_with_texts, lemma_part_within, opt_view, part_of, trimmed, views};
use vstd::prelude::*;

verus! {

/// Which attempts are among the dead ends of the first `n` sessions.
proof fn lemma_dead_ends_in(
    ss: Seq<SessionView>,
    task_type: Seq<char>,
    project: Option<Seq<char>>,
    n: int,
)
    requires
        0 <= n <= ss.len(),
    ensures
        forall|d: DeadEndView| #[trigger]
            dead_ends_in(ss, task_type, project, n).contains(d) ==> exists|i: int, j: int|
                0 <= i < n && 0 <= j < ss[i].attempts.len() && is_similar(ss[i], task_type, project)
                    && is_dead(#[trigger] ss[i].attempts[j]) && d == dead_end(
                    ss[i],
                    ss[i].attempts[j],
                ),
        forall|i: int, j: int|
            0 <= i < n && 0 <= j < ss[i].attempts.len() && is_similar(ss[i], task_type, project)
                && is_dead(#[trigger] ss[i].attempts[j]) ==> dead_ends_in(
                ss,
                task_type,
                project,
                n,
            ).contains(dead_end(ss[i], ss[i].attempts[j])),
    decreases n,
{
    if n > 0 {
        lemma_dead_ends_in(ss, task_type, project, n - 1);
        let rest = dead_ends_in(ss, task_type, project, n - 1);
        let s = ss[n - 1];
        let all = dead_ends_in(ss, task_type, project, n);
        let keep = |a: AttemptView| is_dead(a);
        let kept = s.attempts.filter(keep);
        let more = kept.map_values(|a: AttemptView| dead_end(s, a));
        lemma_filter_keeps(s.attempts, keep);
        assert forall|d: DeadEndView| #[trigger] all.contains(d) implies exists|i: int, j: int|
            0 <= i < n && 0 <= j < ss[i].attempts.len() && is_similar(ss[i], task_type, project)
                && is_dead(#[trigger] ss[i].attempts[j]) && d == dead_end(
                ss[i],
                ss[i].attempts[j],
            ) by {
            let k = all.index_of(d);
            if k < rest.len() {
                assert(rest[k] == d);
                assert(rest.contains(d));
            } else {
                let a = kept[k - rest.len()];
                assert(more[k - rest.len()] == d);
                assert(kept.contains(a));
                let j = s.attempts.index_of(a);
                assert(ss[n - 1].attempts[j] == a);
            }
        }
        assert forall|i: int, j: int|
            0 <= i < n && 0 <= j < ss[i].attempts.len() && is_similar(ss[i], task_type, project)
                && is_dead(#[trigger] ss[i].attempts[j]) implies all.contains(
            dead_end(ss[i], ss[i].attempts[j]),
        ) by {
            let d = dead_end(ss[i], ss[i].attempts[j]);
            if i < n - 1 {
                assert(rest.contains(d));
                assert(all[rest.index_of(d)] == d);
            } else {
                let a = s.attempts[j];
                assert(s.attempts.contains(a));
                assert(kept.contains(a));
                let k = kept.index_of(a);
                assert(more[k] == d);
                assert(all[rest.len() + k] == d);
            }
        }
    }
}

/// What is brought up as a dead end was tried in a session of the same task
/// type, and not of another project than the one that is named. It was rejected
/// or came to a part only, never promising, and is trusted by two tenths at
/// least. It is brought up with its approach and critique.
pub proof fn law_dead_ends_led_nowhere(
    ss: Seq<SessionView>,
    task_type: Seq<char>,
    project: Option<Seq<char>>,
)
    ensures
        forall|k: int|
            0 <= k < dead_ends(ss, task_type, project).len() ==> exists|i: int, j: int|
                {
                    let d = #[trigger] dead_ends(ss, task_type, project)[k];
                    &&& 0 <= i < ss.len()
                    &&& 0 <= j < ss[i].attempts.len()
                    &&& ss[i].task_type == Some(task_type)
                    &&& project is Some && ss[i].project is Some ==> ss[i].project == project
                    &&& !((#[trigger] ss[i].attempts[j]).outcome is Promising)
                    &&& ss[i].attempts[j].confidence.0 >= 4_596_373_779_694_328_218
                    &&& d.handle == ss[i].handle
                    &&& d.seq == ss[i].attempts[j].seq
                    &&& d.approach == ss[i].attempts[j].approach
                    &&& d.critique == ss[i].attempts[j].critique
                },
{
    let key = |d: DeadEndView| (-(byte_len(text_or(d.critique, ""@)) as int), 0int);
    let all = dead_ends_in(ss, task_type, project, ss.len() as int);
    lemma_dead_ends_in(ss, task_type, project, ss.len() as int);
    lemma_ranked(all, key);
    let r = ranked(all, key);
    let f = dead_ends(ss, task_type, project);
    assert forall|k: int| 0 <= k < f.len() implies exists|i: int, j: int|
        {
            let d = #[trigger] f[k];
            &&& 0 <= i < ss.len()
            &&& 0 <= j < ss[i].attempts.len()
            &&& ss[i].task_type == Some(task_type)
            &&& project is Some && ss[i].project is Some ==> ss[i].project == project
            &&& !((#[trigger] ss[i].attempts[j]).outcome is Promising)
            &&& ss[i].attempts[j].confidence.0 >= 4_596_373_779_694_328_218
            &&& d.handle == ss[i].handle
            &&& d.seq == ss[i].attempts[j].seq
            &&& d.approach == ss[i].attempts[j].approach
            &&& d.critique == ss[i].attempts[j].critique
        } by {
        assert(f[k] == r[k]);
        assert(r.contains(f[k]));
        assert(all.contains(f[k]));
    }
}

/// Each attempt of a session of the same task type that was rejected or came to
/// a part only, and is trusted by two tenths at least, is brought up as a dead
/// end, unless fifteen others are whose critiques are no shorter.
pub proof fn law_dead_ends_are_brought_up(
    ss: Seq<SessionView>,
    task_type: Seq<char>,
    project: Option<Seq<char>>,
    i: int,
    j: int,
)
    requires
        0 <= i < ss.len(),
        0 <= j < ss[i].attempts.len(),
        ss[i].task_type == Some(task_type),
        project is None || ss[i].project is None || ss[i].project == project,
        ss[i].attempts[j].outcome is Rejected || ss[i].attempts[j].outcome is Partial,
        ss[i].attempts[j].confidence.0 >= 4_596_373_779_694_328_218,
    ensures
        ({
            let list = dead_ends(ss, task_type, project);
            let a = ss[i].attempts[j];
            &&& list.len() <= 15
            &&& {
                ||| exists|k: int|
                    {
                        &&& 0 <= k < list.len()
                        &&& (#[trigger] list[k]).handle == ss[i].handle
                        &&& list[k].seq == a.seq
                        &&& list[k].approach == a.approach
                        &&& list[k].critique == a.critique
                    }
                ||| {
                    &&& list.len() == 15
                    &&& a.critique is Some ==> forall|k: int|
                        0 <= k < list.len() ==> (#[trigger] list[k]).critique is None ==> byte_len(
                            a.critique->0,
                        ) == 0
                    &&& a.critique is Some ==> forall|k: int|
                        0 <= k < list.len() ==> ((#[trigger] list[k]).critique is Some ==> byte_len(
                            list[k].critique->0,
                        ) >= byte_len(a.critique->0))
                }
            }
        }),
{
    let key = |d: DeadEndView| (-(byte_len(text_or(d.critique, ""@)) as int), 0int);
    let all = dead_ends_in(ss, task_type, project, ss.len() as int);
    lemma_dead_ends_in(ss, task_type, project, ss.len() as int);
    lemma_ranked(all, key);
    lemma_ranked_order(all, key);
    let r = ranked(all, key);
    let list = dead_ends(ss, task_type, project);
    let a = ss[i].attempts[j];
    let d = dead_end(ss[i], a);
    assert(is_dead(ss[i].attempts[j]));
    assert(all.contains(d));
    assert(r.contains(d));
    let p = r.index_of(d);
    reveal_strlit("");
    assert(byte_len(""@) == 0);
    if p < list.len() {
        assert(list[p] == d);
    } else {
        assert(list.len() == 15);
        assert forall|k: int| 0 <= k < list.len() implies byte_len(
            text_or((#[trigger] list[k]).critique, ""@),
        ) >= byte_len(text_or(d.critique, ""@)) by {
            assert(list[k] == r[k]);
            assert(r[p] == d);
        }
    }
}

/// The lessons of the first `n` sessions.
proof fn lemma_lessons_in(
    ss: Seq<SessionView>,
    task_type: Seq<char>,
    project: Option<Seq<char>>,
    n: int,
)
    requires
        0 <= n <= ss.len(),
    ensures
        lessons_in(ss, task_type, project, n).no_duplicates(),
        forall|l: Seq<char>| #[trigger]
            lessons_in(ss, task_type, project, n).contains(l) <==> exists|i: int|
                {
                    &&& 0 <= i < n
                    &&& is_similar(ss[i], task_type, project)
                    &&& ss[i].outcome is Some
                    &&& (#[trigger] ss[i]).lessons.contains(l)
                    &&& said(l)
                },
    decreases n,
{
    if n > 0 {
        lemma_lessons_in(ss, task_type, project, n - 1);
        let rest = lessons_in(ss, task_type, project, n - 1);
        let all = lessons_in(ss, task_type, project, n);
        let s = ss[n - 1];
        let keep = |l: Seq<char>| said(l);
        lemma_filter_keeps(s.lessons, keep);
        law_with_texts(rest, s.lessons.filter(keep));
        assert forall|l: Seq<char>| #[trigger] all.contains(l) <==> exists|i: int|
            {
                &&& 0 <= i < n
                &&& is_similar(ss[i], task_type, project)
                &&& ss[i].outcome is Some
                &&& (#[trigger] ss[i]).lessons.contains(l)
                &&& said(l)
            } by {
            assert(s.lessons.filter(keep).contains(l) <==> s.lessons.contains(l) && said(l));
            if exists|i: int|
                {
                    &&& 0 <= i < n
                    &&& is_similar(ss[i], task_type, project)
                    &&& ss[i].outcome is Some
                    &&& (#[trigger] ss[i]).lessons.contains(l)
                    &&& said(l)
                } {
                let i = choose|i: int|
                    {
                        &&& 0 <= i < n
                        &&& is_similar(ss[i], task_type, project)
                        &&& ss[i].outcome is Some
                        &&& (#[trigger] ss[i]).lessons.contains(l)
                        &&& said(l)
                    };
                if i < n - 1 {
                    assert(rest.contains(l));
                }
            }
            if rest.contains(l) {
                let i = choose|i: int|
                    {
                        &&& 0 <= i < n - 1
                        &&& is_similar(ss[i], task_type, project)
                        &&& ss[i].outcome is Some
                        &&& (#[trigger] ss[i]).lessons.contains(l)
                        &&& said(l)
                    };
                assert(ss[i].lessons.contains(l));
            } else if all.contains(l) {
                assert(ss[n - 1].lessons.contains(l));
            }
        }
    }
}

/// What is brought up as a lesson was learnt in a session of the same task type
/// that is over, and says something. Five lessons are brought up at most, none
/// twice, and every one where there are no more.
pub proof fn law_lessons_were_learnt(
    ss: Seq<SessionView>,
    task_type: Seq<char>,
    project: Option<Seq<char>>,
)
    ensures
        lessons_of(ss, task_type, project).len() <= 5,
        lessons_of(ss, task_type, project).no_duplicates(),
        forall|l: Seq<char>| #[trigger]
            lessons_of(ss, task_type, project).contains(l) ==> exists|i: int|
                {
                    &&& 0 <= i < ss.len()
                    &&& ss[i].task_type == Some(task_type)
                    &&& project is Some && ss[i].project is Some ==> ss[i].project == project
                    &&& ss[i].outcome is Some
                    &&& (#[trigger] ss[i]).lessons.contains(l)
                    &&& trimmed(l).len() > 0
                },
        forall|i: int, l: Seq<char>|
            {
                &&& 0 <= i < ss.len()
                &&& ss[i].task_type == Some(task_type)
                &&& project is None || ss[i].project is None || ss[i].project == project
                &&& ss[i].outcome is Some
                &&& #[trigger] ss[i].lessons.contains(l)
                &&& trimmed(l).len() > 0
            } ==> lessons_of(ss, task_type, project).len() == 5 || lessons_of(
                ss,
                task_type,
                project,
            ).contains(l),
{
    let n = ss.len() as int;
    lemma_lessons_in(ss, task_type, project, n);
    let all = lessons_in(ss, task_type, project, n);
    let list = lessons_of(ss, task_type, project);
    assert forall|l: Seq<char>| #[trigger] list.contains(l) implies all.contains(l) by {
        let k = list.index_of(l);
        assert(all[k] == l);
    }
    assert forall|i: int, l: Seq<char>|
        {
            &&& 0 <= i < ss.len()
            &&& ss[i].task_type == Some(task_type)
            &&& project is None || ss[i].project is None || ss[i].project == project
            &&& ss[i].outcome is Some
            &&& #[trigger] ss[i].lessons.contains(l)
            &&& trimmed(l).len() > 0
        } implies list.len() == 5 || list.contains(l) by {
        assert(all.contains(l));
    }
}

/// A memory is brought up as a warning if and only if it is live, is a warning,
/// and is of no other project than the one that is named.
pub proof fn law_warnings_are_live_warnings(s: StateView, project: Option<Seq<char>>)
    ensures
        forall|m: MemoryView| #[trigger]
            warnings_of(s, project).contains(m) <==> {
                &&& s.memories.contains(m)
                &&& m.lifecycle is Live
                &&& m.fragment_type is Warning
                &&& project is Some && m.project is Some ==> m.project == project
            },
{
    let keep = |m: MemoryView|
        m.lifecycle is Live && m.fragment_type is Warning && (project is None || m.project is None
            || m.project == project);
    lemma_by_id(s.memories);
    lemma_filter_keeps(by_id(s.memories), keep);
}

/// What is said of earlier sessions holds a line for each dead end, with its
/// approach and why it was given up, for each lesson, and for the title of each
/// of the first five warnings.
pub proof fn law_continuity_says_it_all(
    task_type: Seq<char>,
    dead: Seq<DeadEndView>,
    lessons: Seq<Seq<char>>,
    warnings: Seq<MemoryView>,
)
    ensures
        forall|i: int|
            0 <= i < dead.len() ==> part_of(
                "\n- Tried: "@ + (#[trigger] dead[i]).approach + ". Rejected because: "@ + (
                match dead[i].critique {
                    Some(c) => c,
                    None => "unknown"@,
                }),
                continuity_text(task_type, dead, lessons, warnings),
            ),
        forall|i: int|
            0 <= i < lessons.len() ==> part_of(
                "\n- "@ + #[trigger] lessons[i],
                continuity_text(task_type, dead, lessons, warnings),
            ),
        forall|i: int|
            0 <= i < warnings.len() && i < 5 && trimmed(warnings[i].title).len() > 0 ==> part_of(
                "\n- "@ + (#[trigger] warnings[i]).title,
                continuity_text(task_type, dead, lessons, warnings),
            ),
{
    let t = continuity_text(task_type, dead, lessons, warnings);
    let head = similar_head_text(task_type);
    let of_dead = |d: DeadEndView| dead_end_line(d);
    let of_lesson = |l: Seq<char>| plain_line_text(l);
    let of_warning = |m: MemoryView| warning_line(m);
    let d0 = "\n### Dead ends (don't repeat)"@;
    let l0 = "\n### What worked / lessons"@;
    let w0 = "\n### Warnings"@;
    let five = first(warnings, 5);
    let dp = part_if(dead.len() > 0, d0 + written(dead, of_dead));
    let lp = part_if(lessons.len() > 0, l0 + written(lessons, of_lesson));
    let wp = part_if(warnings.len() > 0, w0 + written(five, of_warning));
    if dead.len() > 0 || lessons.len() > 0 || warnings.len() > 0 {
        assert(t == head + dp + lp + wp);
    }
    assert forall|i: int| 0 <= i < dead.len() implies part_of(
        "\n- Tried: "@ + (#[trigger] dead[i]).approach + ". Rejected because: "@ + (
        match dead[i].critique {
            Some(c) => c,
            None => "unknown"@,
        }),
        t,
    ) by {
        let line = of_dead(dead[i]);
        lemma_written_holds(dead, of_dead, i);
        lemma_part_within(line, head + d0, written(dead, of_dead), lp + wp);
        assert(t =~= (head + d0) + written(dead, of_dead) + (lp + wp));
    }
    assert forall|i: int| 0 <= i < lessons.len() implies part_of(
        "\n- "@ + #[trigger] lessons[i],
        t,
    ) by {
        let line = of_lesson(lessons[i]);
        lemma_written_holds(lessons, of_lesson, i);
        lemma_part_within(line, head + dp + l0, written(lessons, of_lesson), wp);
        assert(t =~= (head + dp + l0) + written(lessons, of_lesson) + wp);
    }
    assert forall|i: int|
        0 <= i < warnings.len() && i < 5 && trimmed(warnings[i].title).len() > 0 implies part_of(
        "\n- "@ + (#[trigger] warnings[i]).title,
        t,
    ) by {
        assert(five[i] == warnings[i]);
        let none = Seq::<char>::empty();
        lemma_written_holds(five, of_warning, i);
        lemma_part_within(
            of_warning(five[i]),
            head + dp + lp + w0,
            written(five, of_warning),
            none,
        );
        assert(t =~= (head + dp + lp + w0) + written(five, of_warning) + none);
    }
}

/// Where only one session has attempts of the kind, there are no more dead ends
/// than it has attempts.
proof fn lemma_dead_ends_few(
    ss: Seq<SessionView>,
    task_type: Seq<char>,
    project: Option<Seq<char>>,
    n: int,
    i: int,
)
    requires
        0 <= n <= ss.len(),
        0 <= i < ss.len(),
        forall|k: int|
            0 <= k < ss.len() && k != i && is_similar(#[trigger] ss[k], task_type, project)
                ==> ss[k].attempts.len() == 0,
    ensures
        dead_ends_in(ss, task_type, project, n).len() <= if n > i {
            ss[i].attempts.len() as int
        } else {
            0
        },
    decreases n,
{
    if n > 0 {
        lemma_dead_ends_few(ss, task_type, project, n - 1, i);
        lemma_filter_members(ss[n - 1].attempts, |a: AttemptView| is_dead(a));
    }
}

/// The sessions that were there when another starts: none is lost, and of each
/// the attempts are trusted a little less, and all else that is looked back on
/// stays.
proof fn lemma_started_keeps(
    d: DispatcherView,
    env: IpcEnvelope,
    args: SessionStartArgs,
    names: Seq<Seq<char>>,
)
    requires
        d.wf(),
        !has_session(d.registry.sessions, SessionHandle(d.registry.handle_gen as u128)),
    ensures
        ({
            let before = d.registry.sessions;
            let after = read_noted(
                started(d.registry, env, args, d.store.now),
                env,
                names,
            ).sessions;
            &&& after.len() == before.len() + 1
            &&& forall|k: int|
                0 <= k < before.len() ==> {
                    let b = before[k];
                    let a = #[trigger] after[k];
                    &&& a.handle == b.handle
                    &&& a.task_type == b.task_type
                    &&& a.project == b.project
                    &&& a.lessons == b.lessons
                    &&& a.attempts == b.attempts.map_values(
                        |x: AttemptView|
                            AttemptView { confidence: x.confidence.down(Score(DECAY_STEP)), ..x },
                    )
                }
            &&& after.last().handle == SessionHandle(d.registry.handle_gen as u128)
            &&& after.last().channel_id == env.channel_id
            &&& after.last().status is Active
            &&& after.last().attempts.len() == 0
            &&& after.last().task_type == Some(args.task_type@)
            &&& after.last().technologies == views(args.technologies@)
            &&& after.last().initial_approach == opt_view(args.initial_approach)
            &&& after.last().started_at == Instant(d.store.now)
        }),
{
    let h = SessionHandle(d.registry.handle_gen as u128);
    let before = d.registry.sessions;
    let r1 = decayed(d.registry, Score(DECAY_STEP));
    assert forall|k: int| 0 <= k < before.len() implies (#[trigger] before[k]).handle != h by {}
    let r2 = r1.with_abandoned(env.frontend_id, env.channel_id, d.store.now);
    assert(r2.sessions.len() == before.len());
    assert forall|k: int| 0 <= k < before.len() implies (#[trigger] r2.sessions[k]).handle
        == before[k].handle by {}
    assert(!has_session(r2.sessions, h)) by {
        if has_session(r2.sessions, h) {
            let k = choose|k: int|
                0 <= k < r2.sessions.len() && (#[trigger] r2.sessions[k]).handle == h;
            assert(before[k].handle == h);
        }
    }
    let r3 = r2.with_new_session(
        env.frontend_id,
        env.channel_id,
        None,
        Some(args.task_type@),
        views(args.technologies@),
        d.store.now,
    );
    assert(r3.sessions[before.len() as int].handle == h);
    assert(has_session(r3.sessions, h));
    let r4 = started(d.registry, env, args, d.store.now);
    assert(r4.sessions.len() == before.len() + 1);
    let after = read_noted(r4, env, names).sessions;
    assert(after.len() == before.len() + 1);
    assert forall|k: int| 0 <= k < before.len() implies ({
        let b = before[k];
        let a = #[trigger] after[k];
        &&& a.handle == b.handle
        &&& a.task_type == b.task_type
        &&& a.project == b.project
        &&& a.lessons == b.lessons
        &&& a.attempts == b.attempts.map_values(
            |x: AttemptView|
                AttemptView { confidence: x.confidence.down(Score(DECAY_STEP)), ..x },
        )
    }) by {
        assert(r2.sessions[k].handle == before[k].handle);
        assert(r3.sessions[k] == r2.sessions[k]);
        assert(r4.sessions[k] == r3.sessions[k]);
    }
}

/// When a session starts, each attempt of the earlier session of its task type
/// that was rejected or came to a part only is told as a dead end, with its
/// approach and critique, as long as it is trusted by two tenths after the start
/// has taken its two thousandths.
pub proof fn law_session_start_tells_the_dead_ends(
    d: DispatcherView,
    env: IpcEnvelope,
    args: SessionStartArgs,
    i: int,
    j: int,
)
    requires
        d.wf(),
        trimmed(args.task_type@).len() > 0,
        !has_session(d.registry.sessions, SessionHandle(d.registry.handle_gen as u128)),
        0 <= i < d.registry.sessions.len(),
        d.registry.sessions[i].task_type == Some(args.task_type@),
        forall|k: int|
            0 <= k < d.registry.sessions.len() && k != i
                ==> (#[trigger] d.registry.sessions[k]).task_type != Some(args.task_type@),
        d.registry.sessions[i].attempts.len() <= 15,
        0 <= j < d.registry.sessions[i].attempts.len(),
        d.registry.sessions[i].attempts[j].outcome is Rejected
            || d.registry.sessions[i].attempts[j].outcome is Partial,
        d.registry.sessions[i].attempts[j].confidence.down(
            Score(4_566_758_108_544_739_836),
        ).0 >= 4_596_373_779_694_328_218,
    ensures
        ({
            let a = d.registry.sessions[i].attempts[j];
            let r = session_start(d, env, args).1;
            &&& !r.is_error
            &&& part_of(
                "\n- Tried: "@ + a.approach + ". Rejected because: "@ + (match a.critique {
                    Some(c) => c,
                    None => "unknown"@,
                }),
                r.text,
            )
        }),
{
    reveal(session_start);
    let task = args.task_type@;
    let h = SessionHandle(d.registry.handle_gen as u128);
    let ms = preloaded(d.store, task_text(args));
    let d1 = trusted(
        DispatcherView { registry: started(d.registry, env, args, d.store.now), ..d },
        env,
        ids_of(ms),
    );
    let registry = read_noted(d1.registry, env, names_of(ms));
    assert(d1.registry == started(d.registry, env, args, d.store.now));
    lemma_started_keeps(d, env, args, names_of(ms));
    let ss = registry.sessions;
    let a = ss[i].attempts[j];
    assert(a.outcome == d.registry.sessions[i].attempts[j].outcome);
    assert(is_dead(ss[i].attempts[j]));
    assert forall|k: int|
        0 <= k < ss.len() && k != i && is_similar(#[trigger] ss[k], task, None) implies ss[k].attempts.len()
        == 0 by {
        if k < d.registry.sessions.len() {
            assert(ss[k].task_type == d.registry.sessions[k].task_type);
            assert(d.registry.sessions[k].task_type != Some(task));
        }
    }
    let n = ss.len() as int;
    lemma_dead_ends_few(ss, task, None, n, i);
    lemma_dead_ends_in(ss, task, None, n);
    let all = dead_ends_in(ss, task, None, n);
    let key = |x: DeadEndView| (-(byte_len(text_or(x.critique, ""@)) as int), 0int);
    lemma_ranked(all, key);
    let dead = dead_ends(ss, task, None);
    assert(dead =~= ranked(all, key));
    let e = dead_end(ss[i], a);
    assert(all.contains(e));
    assert(dead.contains(e));
    let p = dead.index_of(e);
    let lessons = lessons_of(ss, task, None);
    let warnings = warnings_of(d1.store, None);
    law_continuity_says_it_all(task, dead, lessons, warnings);
    let past = continuity_text(task, dead, lessons, warnings);
    let guides = suggested(task_text(args), d.store.guides);
    let line = "\n- Tried: "@ + a.approach + ". Rejected because: "@ + (match a.critique {
        Some(c) => c,
        None => "unknown"@,
    });
    assert(dead[p] == e);
    assert(part_of(line, past));
    let text = start_text(h, args, ms, guides, past, pending(d1.store));
    let front = start_text_front(h, args, ms, guides);
    let back = pending_text(pending(d1.store));
    assert(text =~= front + past + back);
    lemma_part_within(line, front, past, back);
}

/// What stands before the part on earlier sessions.
spec fn start_text_front(
    h: SessionHandle,
    args: SessionStartArgs,
    ms: Seq<MemoryView>,
    guides: Seq<GuideSuggestionView>,
) -> Seq<char> {
    start_head_text(uuid_text(h.0), args.task_type@) + part_if(
        args.technologies@.len() > 0,
        technologies_line_text(joined(views(args.technologies@), ", "@)),
    ) + part_if(
        ms.len() > 0,
        "\nPre-loaded memories:\n"@ + written(ms, |m: MemoryView| loaded_item(m)),
    ) + ("\n"@ + suggestions_text(guides))
}

/// Bringing up dead ends changes nothing of a session but how far its attempts
/// are trusted and how often they were looked at.
proof fn lemma_recalled_keeps(r: RegistryView, ds: Seq<DeadEndView>, n: int, now: u64)
    requires
        0 <= n <= ds.len(),
    ensures
        ({
            let after = recalled_dead_ends(r, ds, n, now).sessions;
            &&& after.len() == r.sessions.len()
            &&& forall|k: int|
                0 <= k < after.len() ==> {
                    let b = r.sessions[k];
                    let a = #[trigger] after[k];
                    &&& a == SessionView { attempts: a.attempts, ..b }
                    &&& a.attempts.len() == b.attempts.len()
                    &&& forall|j: int|
                        0 <= j < a.attempts.len() ==> {
                            let x = b.attempts[j];
                            let y = #[trigger] a.attempts[j];
                            &&& y == AttemptView {
                                confidence: y.confidence,
                                access_count: y.access_count,
                                last_accessed_at: y.last_accessed_at,
                                ..x
                            }
                            &&& (forall|e: int|
                                0 <= e < n ==> !((#[trigger] ds[e]).handle == b.handle && ds[e].seq
                                    == x.seq)) ==> y == x
                        }
                }
        }),
    decreases n,
{
    if n > 0 {
        lemma_recalled_keeps(r, ds, n - 1, now);
        let mid = recalled_dead_ends(r, ds, n - 1, now);
        let h = ds[n - 1].handle;
        let q = ds[n - 1].seq;
        let after = recalled_dead_ends(r, ds, n, now).sessions;
        assert forall|k: int| 0 <= k < after.len() implies ({
            let b = r.sessions[k];
            let a = #[trigger] after[k];
            &&& a == SessionView { attempts: a.attempts, ..b }
            &&& a.attempts.len() == b.attempts.len()
            &&& forall|j: int|
                0 <= j < a.attempts.len() ==> {
                    let x = b.attempts[j];
                    let y = #[trigger] a.attempts[j];
                    &&& y == AttemptView {
                        confidence: y.confidence,
                        access_count: y.access_count,
                        last_accessed_at: y.last_accessed_at,
                        ..x
                    }
                    &&& (forall|e: int|
                        0 <= e < n ==> !((#[trigger] ds[e]).handle == b.handle && ds[e].seq
                            == x.seq)) ==> y == x
                }
        }) by {
            let m = mid.sessions[k];
            let a = after[k];
            let b = r.sessions[k];
            lemma_place_of_seq(m.attempts, q, 0);
            assert forall|j: int| 0 <= j < a.attempts.len() implies ({
                let x = b.attempts[j];
                let y = #[trigger] a.attempts[j];
                &&& y == AttemptView {
                    confidence: y.confidence,
                    access_count: y.access_count,
                    last_accessed_at: y.last_accessed_at,
                    ..x
                }
                &&& (forall|e: int|
                    0 <= e < n ==> !((#[trigger] ds[e]).handle == b.handle && ds[e].seq == x.seq))
                    ==> y == x
            }) by {
                let v = m.attempts[j];
                assert(v.seq == b.attempts[j].seq);
                if forall|e: int|
                    0 <= e < n ==> !((#[trigger] ds[e]).handle == b.handle && ds[e].seq
                        == b.attempts[j].seq) {
                    assert(!(ds[n - 1].handle == b.handle && ds[n - 1].seq == b.attempts[j].seq));
                }
            }
        }
    }
}

proof fn lemma_place_of_seq(attempts: Seq<AttemptView>, seq: u32, from: int)
    requires
        0 <= from <= attempts.len(),
    ensures
        from <= attempt_place(attempts, seq, from) <= attempts.len(),
        attempt_place(attempts, seq, from) < attempts.len() ==> attempts[attempt_place(
            attempts,
            seq,
            from,
        )].seq == seq,
    decreases attempts.len() - from,
{
    if from < attempts.len() && attempts[from].seq != seq {
        lemma_place_of_seq(attempts, seq, from + 1);
    }
}

/// A session that is started goes on from now, on the channel that asked for it,
/// with the task type, the technologies and the first approach that were named,
/// under a handle of its own; without a task type none is. No earlier session is
/// lost, and what was tried in it stays, trusted by two thousandths less unless
/// it is brought up.
pub proof fn law_started_session_is_as_asked(
    d: DispatcherView,
    env: IpcEnvelope,
    args: SessionStartArgs,
)
    requires
        d.wf(),
        !has_session(d.registry.sessions, SessionHandle(d.registry.handle_gen as u128)),
    ensures
        ({
            let (after, r) = session_start(d, env, args);
            let before = d.registry.sessions;
            let ss = after.registry.sessions;
            let s = ss.last();
            &&& trimmed(args.task_type@).len() == 0 ==> after == d && r.is_error
            &&& trimmed(args.task_type@).len() > 0 ==> {
                &&& !r.is_error
                &&& ss.len() == before.len() + 1
                &&& s.handle == SessionHandle(d.registry.handle_gen as u128)
                &&& s.channel_id == env.channel_id
                &&& s.status is Active
                &&& s.task_type == Some(args.task_type@)
                &&& s.technologies == views(args.technologies@)
                &&& args.initial_approach is Some ==> s.initial_approach == Some(
                    args.initial_approach->0@,
                )
                &&& s.attempts.len() == 0
                &&& s.started_at == Instant(d.store.now)
                &&& forall|k: int|
                    0 <= k < before.len() ==> {
                        &&& (#[trigger] ss[k]).handle == before[k].handle
                        &&& ss[k].task_type == before[k].task_type
                        &&& ss[k].lessons == before[k].lessons
                        &&& ss[k].attempts.len() == before[k].attempts.len()
                        &&& forall|j: int|
                            0 <= j < ss[k].attempts.len() ==> {
                                let x = before[k].attempts[j];
                                let y = #[trigger] ss[k].attempts[j];
                                &&& y.approach == x.approach && y.outcome == x.outcome
                                &&& y.critique == x.critique && y.seq == x.seq
                                &&& before[k].task_type != Some(args.task_type@) ==> y.confidence
                                    == x.confidence.down(Score(4_566_758_108_544_739_836))
                                    && y.access_count == x.access_count
                            }
                    }
            }
        }),
{
    reveal(session_start);
    if trimmed(args.task_type@).len() > 0 {
        let h = SessionHandle(d.registry.handle_gen as u128);
        let ms = preloaded(d.store, task_text(args));
        let d1 = trusted(
            DispatcherView { registry: started(d.registry, env, args, d.store.now), ..d },
            env,
            ids_of(ms),
        );
        assert(d1.registry == started(d.registry, env, args, d.store.now));
        let registry = read_noted(d1.registry, env, names_of(ms));
        let mid = registry.sessions;
        lemma_started_keeps(d, env, args, names_of(ms));
        let dead = dead_ends(mid, args.task_type@, None);
        lemma_recalled_keeps(registry, dead, dead.len() as int, d.store.now);
        law_dead_ends_led_nowhere(mid, args.task_type@, None);
        let before = d.registry.sessions;
        let ss = session_start(d, env, args).0.registry.sessions;
        assert(ss == recalled_dead_ends(registry, dead, dead.len() as int, d.store.now).sessions);
        assert(ss[before.len() as int] == ss.last());
        assert forall|k: int| 0 <= k < before.len() implies {
            &&& (#[trigger] ss[k]).handle == before[k].handle
            &&& ss[k].task_type == before[k].task_type
            &&& ss[k].lessons == before[k].lessons
            &&& ss[k].attempts.len() == before[k].attempts.len()
            &&& forall|j: int|
                0 <= j < ss[k].attempts.len() ==> {
                    let x = before[k].attempts[j];
                    let y = #[trigger] ss[k].attempts[j];
                    &&& y.approach == x.approach && y.outcome == x.outcome
                    &&& y.critique == x.critique && y.seq == x.seq
                    &&& before[k].task_type != Some(args.task_type@) ==> y.confidence
                        == x.confidence.down(Score(4_566_758_108_544_739_836)) && y.access_count
                        == x.access_count
                }
        } by {
            assert(mid[k].handle == before[k].handle);
            assert forall|j: int| 0 <= j < ss[k].attempts.len() implies {
                let x = before[k].attempts[j];
                let y = #[trigger] ss[k].attempts[j];
                &&& y.approach == x.approach && y.outcome == x.outcome
                &&& y.critique == x.critique && y.seq == x.seq
                &&& before[k].task_type != Some(args.task_type@) ==> y.confidence
                    == x.confidence.down(Score(4_566_758_108_544_739_836)) && y.access_count
                    == x.access_count
            } by {
                if before[k].task_type != Some(args.task_type@) {
                    assert forall|e: int| 0 <= e < dead.len() implies (#[trigger] dead[e]).handle
                        != mid[k].handle by {
                        let (i, q) = choose|i: int, q: int|
                            {
                                &&& 0 <= i < mid.len()
                                &&& 0 <= q < mid[i].attempts.len()
                                &&& mid[i].task_type == Some(args.task_type@)
                                &&& !((#[trigger] mid[i].attempts[q]).outcome is Promising)
                                &&& dead[e].handle == mid[i].handle
                            };
                        if i == before.len() {
                            assert(mid[i] == mid.last());
                        } else {
                            assert(mid[i].handle == before[i].handle);
                            assert(mid[i].task_type == before[i].task_type);
                            if i < k {
                                assert(before[i].handle != before[k].handle);
                            } else if k < i {
                                assert(before[k].handle != before[i].handle);
                            }
                        }
                    }
                }
            }
        }
    }
}

/// An attempt that is brought up is looked at once more, now, and is trusted
/// more; every other attempt and session stays as it is.
pub proof fn law_brought_up_is_trusted_more(
    r: RegistryView,
    i: int,
    j: int,
    delta: Score,
    now: u64,
)
    requires
        r.wf(),
        0 <= i < r.sessions.len(),
        0 <= j < r.sessions[i].attempts.len(),
        r.sessions[i].attempts[j].access_count < u64::MAX,
        forall|k: int|
            0 <= k < j ==> (#[trigger] r.sessions[i].attempts[k]).seq
                != r.sessions[i].attempts[j].seq,
    ensures
        ({
            let x = r.sessions[i].attempts[j];
            let after = boosted(r, r.sessions[i].handle, x.seq, delta, now).sessions;
            let y = after[i].attempts[j];
            &&& after.len() == r.sessions.len()
            &&& forall|k: int|
                0 <= k < after.len() && k != i ==> #[trigger] after[k] == r.sessions[k]
            &&& after[i].attempts.len() == r.sessions[i].attempts.len()
            &&& forall|k: int|
                0 <= k < after[i].attempts.len() && k != j ==> #[trigger] after[i].attempts[k]
                    == r.sessions[i].attempts[k]
            &&& y.confidence == x.confidence.up(delta)
            &&& y.access_count == x.access_count + 1
            &&& y.last_accessed_at == Some(Instant(now))
            &&& y.approach == x.approach && y.outcome == x.outcome && y.critique == x.critique
        }),
{
    let q = r.sessions[i].attempts[j].seq;
    lemma_place_of_seq(r.sessions[i].attempts, q, 0);
    lemma_place_is_first(r.sessions[i].attempts, j, 0);
    let h = r.sessions[i].handle;
    assert(has_session(r.sessions, h));
    let after = boosted(r, h, q, delta, now).sessions;
    assert forall|k: int| 0 <= k < after.len() && k != i implies #[trigger] after[k]
        == r.sessions[k] by {
        if i < k {
            assert(r.sessions[i].handle != r.sessions[k].handle);
        } else {
            assert(r.sessions[k].handle != r.sessions[i].handle);
        }
    }
}

proof fn lemma_place_is_first(attempts: Seq<AttemptView>, j: int, from: int)
    requires
        0 <= from <= j < attempts.len(),
        forall|k: int| 0 <= k < j ==> (#[trigger] attempts[k]).seq != attempts[j].seq,
    ensures
        attempt_place(attempts, attempts[j].seq, from) == j,
    decreases j - from,
{
    if from < j {
        lemma_place_is_first(attempts, j, from + 1);
    }
}

/// The suggestions that a session starts with are those that wait for an answer,
/// the first three of them.
pub proof fn law_waiting_suggestions_are_told(
    s: StateView,
    waits: spec_fn(SuggestionView) -> bool,
)
    requires
        forall|x: SuggestionView| #[trigger]
            waits(x) <==> !(x.status is Accepted) && !(x.status is Dismissed),
    ensures
        pending(s).is_prefix_of(s.suggestions.filter(waits)),
        pending(s).len() == if s.suggestions.filter(waits).len() < 3 {
            s.suggestions.filter(waits).len()
        } else {
            3
        },
{
    assert(waits =~= (|x: SuggestionView| x.status is Pending));
}

/// A memory that is added goes down as made in the session of the channel.
pub proof fn law_added_memory_is_noted(r: RegistryView, env: IpcEnvelope, name: Seq<char>, i: int)
    requires
        0 <= i < r.sessions.len(),
        r.active(env.frontend_id, env.channel_id) == Some(r.sessions[i].handle),
    ensures
        noted(r, env, name).sessions[i].memories_created.contains(name),
        noted(r, env, name).sessions[i].attempts == r.sessions[i].attempts,
        noted(r, env, name).sessions[i].memories_read == r.sessions[i].memories_read,
        noted(r, env, name).channels == r.channels,
{
    let list = seq![name];
    assert(list[0] == name);
    law_with_texts(r.sessions[i].memories_created, list);
}

} // verus!
