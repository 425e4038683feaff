//! What holds of every session that is worked in, ended and looked back on.

use crate::canonical::repository::{
    by_id, guide_key, guide_of, guide_place, guide_slot, last_number, suggestion_place, with_guide,
    without_key,
};
use crate::compatibility::lemma::privacy::redacted;
use crate::compatibility::lemma::tool_args::{
    SessionAttemptArgs, SessionEndArgs, SessionStatsArgs, SuggestionRespondArgs,
};
use crate::daemon::dispatcher::DispatcherView;
use crate::daemon::envelope::IpcEnvelope;
use crate::daemon::registry::{attempt_place, RegistryView};
use crate::daemon::request_laws::law_kept_guide_reads_back;
use crate::daemon::tools::common::relevance;
use crate::daemon::tools::data::ToolDataView;
use crate::daemon::tools::guide_laws::law_guide_of_a_name;
use crate::daemon::tools::guides::blank;
use crate::daemon::tools::recall_laws::{lemma_by_id, lemma_relevance_counts};
use crate::daemon::tools::sessions::{
    judged_guide, judged_guides, preloaded, recent, session_attempt, session_end, session_named,
    session_stats, suggestion_respond, weighed, with_lines,
};
use crate::domain::guide::GuideView;
use crate::domain::id::{uuid_text, SessionHandle};
use crate::domain::memory::{Instant, MemoryView};
use crate::domain::score::Score;
use crate::domain::session::{
    AttemptOutcome, AttemptView, SessionView, SuggestionView, TaskOutcome,
};
use crate::domain::state::{has_session, session_of, unique_sessions, StateView};
use crate::order::text_lt;
use crate::rank::{lemma_filter_keeps, lemma_ranked, lemma_ranked_order, ranked};
use crate::text::{lowercase, opt_view, trimmed, views, words};
use vstd::prelude::*;

verus! {

/// The session of a handle is where it stands.
pub proof fn lemma_session_stands(ss: Seq<SessionView>, i: int)
    requires
        unique_sessions(ss),
        0 <= i < ss.len(),
    ensures
        has_session(ss, ss[i].handle),
        session_of(ss, ss[i].handle) == ss[i],
{
    let h = ss[i].handle;
    let k = choose|k: int| 0 <= k < ss.len() && (#[trigger] ss[k]).handle == h;
    if i < k {
        assert(ss[i].handle != ss[k].handle);
    } else if k < i {
        assert(ss[k].handle != ss[i].handle);
    }
}

/// An attempt is recorded in the session of its channel and in no other, behind
/// those that were made before, with the outcome that was given and without the
/// secrets in its text. A critique of an attempt that was rejected or came to a
/// part only is counted as one.
pub proof fn law_attempt_is_recorded(
    d: DispatcherView,
    env: IpcEnvelope,
    args: SessionAttemptArgs,
    i: int,
)
    requires
        d.wf(),
        !blank(args.approach@),
        !blank(args.outcome@),
        AttemptOutcome::named(args.outcome@) is Some,
        d.registry.active(env.frontend_id, env.channel_id) is Some,
        0 <= i < d.registry.sessions.len(),
        d.registry.sessions[i].attempts.len() < u32::MAX,
        d.registry.sessions[i].refinement_attempts < u32::MAX,
        d.registry.sessions[i].self_critique_count < u32::MAX,
    ensures
        ({
            let (after, r) = session_attempt(d, env, args);
            let b = d.registry.sessions[i];
            let x = after.registry.sessions[i];
            let h = d.registry.active(env.frontend_id, env.channel_id)->0;
            &&& !r.is_error
            &&& after.store == d.store
            &&& after.registry.sessions.len() == d.registry.sessions.len()
            &&& b.handle != h ==> x == b
            &&& b.handle == h ==> {
                let a = x.attempts.last();
                &&& x.attempts == b.attempts.push(a)
                &&& Some(a.outcome) == AttemptOutcome::named(args.outcome@)
                &&& a.approach == redacted(args.approach@)
                &&& args.critique is Some ==> a.critique == Some(redacted(args.critique->0@))
                &&& args.critique is None ==> a.critique is None
                &&& a.rationale == opt_view(args.rationale)
                &&& a.session_id == h
                &&& a.seq == b.attempts.len() + 1
                &&& a.confidence == Score(4_607_182_418_800_017_408)
                &&& a.access_count == 0
                &&& a.created_at == Instant(d.store.now)
                &&& x.refinement_attempts == b.refinement_attempts + 1
                &&& x.self_critique_count == b.self_critique_count + if !(a.outcome is Promising)
                    && args.critique is Some {
                    1int
                } else {
                    0
                }
                &&& x.status == b.status && x.task_type == b.task_type && x.lessons == b.lessons
            }
        }),
{
    reveal(session_attempt);
    if d.registry.sessions[i].handle == d.registry.active(env.frontend_id, env.channel_id)->0 {
        lemma_session_stands(d.registry.sessions, i);
    }
}

/// An attempt that says nothing, has no outcome that is known, or comes where no
/// session is going on, is an error and changes nothing.
pub proof fn law_attempts_need_a_session(
    d: DispatcherView,
    env: IpcEnvelope,
    args: SessionAttemptArgs,
)
    ensures
        trimmed(args.approach@).len() == 0 || AttemptOutcome::named(args.outcome@) is None
            || d.registry.active(env.frontend_id, env.channel_id) is None ==> session_attempt(
            d,
            env,
            args,
        ).0 == d && session_attempt(d, env, args).1.is_error,
{
    reveal(session_attempt);
}

/// A session that is ended has the outcome, the approach and the lessons that
/// were given, and ended now; no other session changes.
pub proof fn law_ended_session_keeps_what_was_learnt(
    d: DispatcherView,
    env: IpcEnvelope,
    args: SessionEndArgs,
    i: int,
)
    requires
        d.wf(),
        !blank(args.outcome@),
        TaskOutcome::named(args.outcome@) is Some,
        d.registry.active(env.frontend_id, env.channel_id) is Some,
        0 <= i < d.registry.sessions.len(),
    ensures
        ({
            let (after, r) = session_end(d, env, args);
            let b = d.registry.sessions[i];
            let x = after.registry.sessions[i];
            let h = d.registry.active(env.frontend_id, env.channel_id)->0;
            &&& !r.is_error
            &&& after.registry.sessions.len() == d.registry.sessions.len()
            &&& b.handle != h ==> x == b
            &&& b.handle == h ==> {
                &&& x.status is Ended
                &&& x.outcome == TaskOutcome::named(args.outcome@)
                &&& x.final_approach == opt_view(args.final_approach)
                &&& x.lessons == views(args.lessons@)
                &&& x.ended_at == Some(Instant(d.store.now))
                &&& x.attempts == b.attempts && x.guides_used == b.guides_used
            }
            &&& after.store.memories == d.store.memories
        }),
{
    reveal(session_end);
}

proof fn lemma_place_split(a: Seq<GuideView>, b: Seq<GuideView>, key: Seq<char>, from: int)
    requires
        0 <= from <= a.len(),
    ensures
        guide_place(a, key, from) < a.len() ==> guide_place(a + b, key, from) == guide_place(
            a,
            key,
            from,
        ),
        guide_place(a, key, from) >= a.len() ==> guide_place(a + b, key, from) == guide_place(
            a + b,
            key,
            a.len() as int,
        ),
        guide_place(a, key, from) <= a.len(),
    decreases a.len() - from,
{
    if from < a.len() {
        assert((a + b)[from] == a[from]);
        if guide_key(a[from].name) != key {
            lemma_place_split(a, b, key, from + 1);
        }
    }
}

proof fn lemma_place_shift(a: Seq<GuideView>, b: Seq<GuideView>, key: Seq<char>, from: int)
    requires
        0 <= from <= b.len(),
    ensures
        guide_place(a + b, key, a.len() + from) == a.len() + guide_place(b, key, from),
        guide_place(b, key, from) <= b.len(),
    decreases b.len() - from,
{
    if from < b.len() {
        assert((a + b)[a.len() + from] == b[from]);
        if guide_key(b[from].name) != key {
            lemma_place_shift(a, b, key, from + 1);
        }
    }
}

/// The guide of a name in one list behind another: the first one's, or else the
/// second one's.
proof fn lemma_guide_of_both(a: Seq<GuideView>, b: Seq<GuideView>, name: Seq<char>)
    ensures
        guide_of(a + b, name) == if guide_of(a, name) is Some {
            guide_of(a, name)
        } else {
            guide_of(b, name)
        },
{
    let key = guide_key(name);
    lemma_place_split(a, b, key, 0);
    lemma_place_shift(a, b, key, 0);
    let i = guide_place(a, key, 0);
    if i < a.len() {
        law_guide_of_a_name(a, name);
        assert(0 <= i) by {
            lemma_place_low(a, key, 0);
        }
        assert((a + b)[i] == a[i]);
    } else {
        let j = guide_place(b, key, 0);
        lemma_place_low(b, key, 0);
        if j < b.len() {
            assert((a + b)[a.len() + j] == b[j]);
        }
    }
}

proof fn lemma_place_low(gs: Seq<GuideView>, key: Seq<char>, from: int)
    requires
        0 <= from <= gs.len(),
    ensures
        from <= guide_place(gs, key, from) <= gs.len(),
    decreases gs.len() - from,
{
    if from < gs.len() && guide_key(gs[from].name) != key {
        lemma_place_low(gs, key, from + 1);
    }
}

proof fn lemma_guide_of_left(gs: Seq<GuideView>, gone: Seq<char>, name: Seq<char>)
    requires
        guide_key(name) != gone,
    ensures
        guide_of(without_key(gs, gone), name) == guide_of(gs, name),
    decreases gs.len(),
{
    reveal(Seq::filter);
    if gs.len() > 0 {
        let front = gs.drop_last();
        let last = seq![gs.last()];
        lemma_guide_of_left(front, gone, name);
        assert(gs =~= front + last);
        lemma_guide_of_both(front, last, name);
        let rest = without_key(front, gone);
        if guide_key(gs.last().name) != gone {
            assert(without_key(gs, gone) =~= rest + last);
            lemma_guide_of_both(rest, last, name);
        } else {
            assert(without_key(gs, gone) =~= rest);
            assert(guide_place(last, guide_key(name), 0) == 1) by {
                reveal_with_fuel(guide_place, 3);
                assert(last[0] == gs.last());
            }
        }
    } else {
        assert(without_key(gs, gone) =~= gs);
    }
}

/// Putting a guide in changes the guide of no other name.
pub proof fn law_other_guides_stay(gs: Seq<GuideView>, g: GuideView, name: Seq<char>)
    requires
        trimmed(lowercase(name)) != trimmed(lowercase(g.name)),
    ensures
        guide_of(with_guide(gs, g), name) == guide_of(gs, name),
{
    let key = guide_key(g.name);
    let rest = without_key(gs, key);
    lemma_guide_of_left(gs, key, name);
    lemma_slot_low(rest, key, 0);
    let p = guide_slot(rest, key, 0);
    let a = rest.take(p);
    let b = rest.skip(p);
    let one = seq![g];
    assert(rest =~= a + b);
    assert(with_guide(gs, g) =~= (a + one) + b);
    lemma_guide_of_both(a, b, name);
    lemma_guide_of_both(a + one, b, name);
    lemma_guide_of_both(a, one, name);
    assert(guide_of(one, name) is None) by {
        reveal_with_fuel(guide_place, 3);
        assert(one[0] == g);
    }
}

proof fn lemma_slot_low(gs: Seq<GuideView>, key: Seq<char>, from: int)
    requires
        0 <= from <= gs.len(),
    ensures
        from <= guide_slot(gs, key, from) <= gs.len(),
    decreases gs.len() - from,
{
    if from < gs.len() && !text_lt(key, guide_key(gs[from].name)) {
        lemma_slot_low(gs, key, from + 1);
    }
}

proof fn lemma_judged(
    gs: Seq<GuideView>,
    names: Seq<Seq<char>>,
    outcome: TaskOutcome,
    now: u64,
    n: int,
    name: Seq<char>,
)
    requires
        0 <= n <= names.len(),
        forall|i: int, j: int|
            0 <= i < j < names.len() ==> guide_key(#[trigger] names[i]) != guide_key(
                #[trigger] names[j],
            ),
    ensures
        ({
            let after = judged_guides(gs, names, outcome, now, n).0;
            if exists|i: int| 0 <= i < n && guide_key(#[trigger] names[i]) == guide_key(name) {
                guide_of(gs, name) matches Some(b) ==> guide_of(after, name) == Some(
                    judged_guide(b, outcome, now),
                )
            } else {
                guide_of(after, name) == guide_of(gs, name)
            }
        }),
    decreases n,
{
    if n > 0 {
        lemma_judged(gs, names, outcome, now, n - 1, name);
        let rest = judged_guides(gs, names, outcome, now, n - 1).0;
        let last = names[n - 1];
        law_guide_of_a_name(rest, last);
        if guide_key(last) == guide_key(name) {
            assert(!(exists|i: int|
                0 <= i < n - 1 && guide_key(#[trigger] names[i]) == guide_key(name)));
            assert(guide_of(rest, last) == guide_of(rest, name));
            if let Some(found) = guide_of(rest, last) {
                law_kept_guide_reads_back(
                    rest,
                    judged_guide(found, outcome, now),
                    name,
                );
            }
        } else {
            if let Some(found) = guide_of(rest, last) {
                law_other_guides_stay(rest, judged_guide(found, outcome, now), name);
            }
            assert((exists|i: int|
                0 <= i < n && guide_key(#[trigger] names[i]) == guide_key(name)) == (exists|i: int|
                0 <= i < n - 1 && guide_key(#[trigger] names[i]) == guide_key(name))) by {
                if exists|i: int|
                    0 <= i < n && guide_key(#[trigger] names[i]) == guide_key(name) {
                    let i = choose|i: int|
                        0 <= i < n && guide_key(#[trigger] names[i]) == guide_key(name);
                    assert(i < n - 1);
                }
            }
        }
    }
}

/// Each guide that a session used has one success more where the session ended
/// in success, one failure more where it ended in failure, and neither
/// otherwise. The guides that it did not use stay as they were.
pub proof fn law_ended_session_judges_its_guides(
    d: DispatcherView,
    env: IpcEnvelope,
    args: SessionEndArgs,
    name: Seq<char>,
)
    requires
        d.wf(),
        !blank(args.outcome@),
        TaskOutcome::named(args.outcome@) is Some,
        d.registry.active(env.frontend_id, env.channel_id) is Some,
        ({
            let used = session_of(
                d.registry.sessions,
                d.registry.active(env.frontend_id, env.channel_id)->0,
            ).guides_used;
            forall|i: int, j: int|
                0 <= i < j < used.len() ==> trimmed(lowercase(#[trigger] used[i])) != trimmed(
                    lowercase(#[trigger] used[j]),
                )
        }),
        guide_of(d.store.guides, name) is Some,
        guide_of(d.store.guides, name)->0.success_count < u32::MAX,
        guide_of(d.store.guides, name)->0.failure_count < u32::MAX,
    ensures
        ({
            let after = session_end(d, env, args).0.store.guides;
            let used = session_of(
                d.registry.sessions,
                d.registry.active(env.frontend_id, env.channel_id)->0,
            ).guides_used;
            let was_used = exists|i: int|
                0 <= i < used.len() && trimmed(lowercase(#[trigger] used[i])) == trimmed(
                    lowercase(name),
                );
            let b = guide_of(d.store.guides, name)->0;
            &&& guide_of(after, name) matches Some(g)
            &&& !was_used ==> g == b
            &&& was_used ==> {
                &&& g.name == b.name && g.usage_count == b.usage_count && g.learnings
                    == b.learnings
                &&& TaskOutcome::named(args.outcome@)->0 is Success ==> g.success_count
                    == b.success_count + 1 && g.failure_count == b.failure_count
                &&& TaskOutcome::named(args.outcome@)->0 is Failure ==> g.failure_count
                    == b.failure_count + 1 && g.success_count == b.success_count
                &&& !(TaskOutcome::named(args.outcome@)->0 is Success) && !(TaskOutcome::named(
                    args.outcome@,
                )->0 is Failure) ==> g.success_count == b.success_count && g.failure_count
                    == b.failure_count
            }
        }),
{
    reveal(session_end);
    let h = d.registry.active(env.frontend_id, env.channel_id)->0;
    let k = choose|k: int|
        0 <= k < d.registry.sessions.len() && (#[trigger] d.registry.sessions[k]).handle == h;
    lemma_session_stands(d.registry.sessions, k);
    let used = session_of(d.registry.sessions, h).guides_used;
    let outcome = TaskOutcome::named(args.outcome@)->0;
    let (after, r) = session_end(d, env, args);
    let ended = after.registry.sessions;
    assert forall|i: int, j: int| 0 <= i < j < ended.len() implies (#[trigger] ended[i]).handle
        != (#[trigger] ended[j]).handle by {
        assert(d.registry.sessions[i].handle != d.registry.sessions[j].handle);
    }
    lemma_session_stands(ended, k);
    assert(session_of(ended, h).guides_used == used);
    assert forall|i: int, j: int| 0 <= i < j < used.len() implies guide_key(#[trigger] used[i])
        != guide_key(#[trigger] used[j]) by {
        assert(trimmed(lowercase(used[i])) != trimmed(lowercase(used[j])));
    }
    lemma_judged(d.store.guides, used, outcome, d.store.now, used.len() as int, name);
    assert((exists|i: int| 0 <= i < used.len() && guide_key(#[trigger] used[i]) == guide_key(name))
        == (exists|i: int|
        0 <= i < used.len() && trimmed(lowercase(#[trigger] used[i])) == trimmed(
            lowercase(name),
        )));
}

/// The sessions that are looked back on are over, come the latest first, and are
/// five at most, or as few as were asked for; none that is over and began later
/// than one of them is left out.
pub proof fn law_recent_sessions_are_the_latest(ss: Seq<SessionView>, args: SessionStatsArgs)
    ensures
        ({
            let list = recent(ss, args);
            &&& list.len() <= 5
            &&& args.count is Some ==> list.len() <= args.count->0
            &&& forall|i: int|
                0 <= i < list.len() ==> ss.contains(#[trigger] list[i]) && list[i].status is Ended
            &&& forall|i: int, j: int|
                0 <= i < j < list.len() ==> (#[trigger] list[i]).started_at.0 >= (
                #[trigger] list[j]).started_at.0
            &&& forall|s: SessionView|
                #[trigger] ss.contains(s) && s.status is Ended && !list.contains(s) ==> {
                    &&& list.len() == 5 || args.count is Some && list.len() == args.count->0
                    &&& forall|i: int|
                        0 <= i < list.len() ==> (#[trigger] list[i]).started_at.0
                            >= s.started_at.0
                }
        }),
{
    let over = |s: SessionView| s.status is Ended;
    let key = |s: SessionView| (-(s.started_at.0 as int), 0int);
    lemma_filter_keeps(ss, over);
    let all = ss.filter(over);
    lemma_ranked(all, key);
    lemma_ranked_order(all, key);
    let r = ranked(all, key);
    let list = recent(ss, args);
    assert forall|i: int| 0 <= i < list.len() implies ss.contains(#[trigger] list[i])
        && list[i].status is Ended by {
        assert(list[i] == r[i]);
        assert(r.contains(r[i]));
        assert(all.contains(r[i]));
    }
    assert forall|i: int, j: int| 0 <= i < j < list.len() implies (#[trigger] list[i]).started_at.0
        >= (#[trigger] list[j]).started_at.0 by {
        assert(list[i] == r[i] && list[j] == r[j]);
    }
    assert forall|s: SessionView|
        #[trigger] ss.contains(s) && s.status is Ended && !list.contains(s) implies {
        &&& list.len() == 5 || args.count is Some && list.len() == args.count->0
        &&& forall|i: int|
            0 <= i < list.len() ==> (#[trigger] list[i]).started_at.0 >= s.started_at.0
    } by {
        assert(all.contains(s));
        assert(r.contains(s));
        let p = r.index_of(s);
        if p < list.len() {
            assert(list[p] == s);
        }
        assert forall|i: int| 0 <= i < list.len() implies (#[trigger] list[i]).started_at.0
            >= s.started_at.0 by {
            assert(list[i] == r[i] && r[p] == s);
        }
    }
}

/// What is said of a session: how many attempts it made, and with which
/// technologies.
pub proof fn law_session_figures(r: RegistryView, env: IpcEnvelope, args: SessionStatsArgs)
    ensures
        session_stats(r, env, args).structured matches Some(
            ToolDataView::SessionFigures { active, recent: shown },
        ) && {
            let past = recent(r.sessions, args);
            &&& active is Some <==> r.active(env.frontend_id, env.channel_id) is Some
            &&& active matches Some(a) ==> {
                let s = session_of(r.sessions, r.active(env.frontend_id, env.channel_id)->0);
                a.tool_calls == s.attempts.len() as usize && a.technologies == s.technologies
                    && a.guides_used == s.guides_used
            }
            &&& shown.len() == past.len()
            &&& forall|i: int|
                0 <= i < past.len() ==> (#[trigger] shown[i]).tool_calls
                    == past[i].attempts.len() as usize && shown[i].technologies
                    == past[i].technologies
        },
{
    reveal(session_stats);
}

proof fn lemma_suggestion_place(ss: Seq<SuggestionView>, id: u64, from: int)
    requires
        0 <= from <= ss.len(),
    ensures
        from <= suggestion_place(ss, id, from) <= ss.len(),
        suggestion_place(ss, id, from) < ss.len() ==> ss[suggestion_place(ss, id, from)].id == id,
        forall|i: int|
            from <= i < suggestion_place(ss, id, from) ==> (#[trigger] ss[i]).id != id,
    decreases ss.len() - from,
{
    if from < ss.len() && ss[from].id != id {
        lemma_suggestion_place(ss, id, from + 1);
    }
}

/// A suggestion that is accepted is accepted, and one that is dismissed is
/// dismissed, now; what it suggests stays, and so does every other suggestion.
/// Any other action, and a number that no suggestion has, is an error and
/// changes nothing.
pub proof fn law_response_settles_the_suggestion(d: DispatcherView, args: SuggestionRespondArgs)
    ensures
        ({
            let (after, r) = suggestion_respond(d, args);
            let ss = d.store.suggestions;
            let accept = lowercase(args.action@) == "accept"@;
            let dismiss = lowercase(args.action@) == "dismiss"@;
            let known = exists|i: int| 0 <= i < ss.len() && (#[trigger] ss[i]).id == args.id;
            &&& !(accept || dismiss) || !known ==> after == d && r.is_error
            &&& (accept || dismiss) && known ==> exists|k: int|
                {
                    let s = #[trigger] after.store.suggestions[k];
                    &&& 0 <= k < ss.len()
                    &&& ss[k].id == args.id
                    &&& after.store.suggestions == ss.update(k, s)
                    &&& accept ==> s.status is Accepted
                    &&& !accept ==> s.status is Dismissed
                    &&& s.resolved_at == Some(Instant(d.store.now))
                    &&& s.id == args.id && s.suggestion == ss[k].suggestion && s.created_at
                        == ss[k].created_at
                    &&& !r.is_error
                }
            &&& after.store.memories == d.store.memories && after.store.guides == d.store.guides
        }),
{
    reveal(suggestion_respond);
    let ss = d.store.suggestions;
    lemma_suggestion_place(ss, args.id, 0);
    let k = suggestion_place(ss, args.id, 0);
    if k < ss.len() {
        let (after, r) = suggestion_respond(d, args);
        if lowercase(args.action@) == "accept"@ || lowercase(args.action@) == "dismiss"@ {
            assert(after.store.suggestions =~= ss.update(k, after.store.suggestions[k]));
        }
    }
}

proof fn lemma_attempt_place(attempts: Seq<AttemptView>, j: int, from: int)
    requires
        0 <= from <= j < attempts.len(),
        forall|a: int, b: int|
            0 <= a < b < attempts.len() ==> (#[trigger] attempts[a]).seq != (
            #[trigger] attempts[b]).seq,
    ensures
        attempt_place(attempts, attempts[j].seq, from) == j,
    decreases j - from,
{
    if from < j {
        assert(attempts[from].seq != attempts[j].seq);
        lemma_attempt_place(attempts, j, from + 1);
    }
}

proof fn lemma_weighed(
    r: RegistryView,
    p: int,
    accept: bool,
    now: u64,
    n: int,
)
    requires
        r.wf(),
        0 <= p < r.sessions.len(),
        0 <= n <= r.sessions[p].attempts.len(),
        forall|a: int, b: int|
            0 <= a < b < r.sessions[p].attempts.len() ==> (#[trigger] r.sessions[p].attempts[a]).seq
                != (#[trigger] r.sessions[p].attempts[b]).seq,
    ensures
        ({
            let s = r.sessions[p];
            let after = weighed(r, s.handle, s.attempts, accept, now, n);
            &&& after.sessions.len() == r.sessions.len()
            &&& after.channels == r.channels
            &&& forall|i: int|
                0 <= i < r.sessions.len() ==> (#[trigger] after.sessions[i]).handle
                    == r.sessions[i].handle && (i != p ==> after.sessions[i] == r.sessions[i])
            &&& after.sessions[p].attempts.len() == s.attempts.len()
            &&& forall|j: int|
                0 <= j < s.attempts.len() ==> {
                    let b = s.attempts[j];
                    let a = #[trigger] after.sessions[p].attempts[j];
                    &&& a.seq == b.seq && a.outcome == b.outcome && a.approach == b.approach
                    &&& j >= n ==> a == b
                    &&& j < n ==> a.confidence == if accept && b.outcome is Promising {
                        b.confidence.up(Score(4_581_421_828_931_458_171))
                    } else if !accept && !(b.outcome is Promising) {
                        b.confidence.down(Score(4_581_421_828_931_458_171))
                    } else {
                        b.confidence
                    }
                }
        }),
    decreases n,
{
    let s = r.sessions[p];
    if n > 0 {
        lemma_weighed(r, p, accept, now, n - 1);
        let rest = weighed(r, s.handle, s.attempts, accept, now, n - 1);
        let a = s.attempts[n - 1];
        let mid = rest.sessions[p].attempts;
        assert forall|x: int, y: int| 0 <= x < y < mid.len() implies (#[trigger] mid[x]).seq != (
        #[trigger] mid[y]).seq by {
            assert(mid[x].seq == s.attempts[x].seq && mid[y].seq == s.attempts[y].seq);
        }
        assert(mid[n - 1].seq == a.seq);
        lemma_attempt_place(mid, n - 1, 0);
        assert(rest.sessions[p].handle == s.handle);
        assert(has_session(rest.sessions, s.handle));
        let after = weighed(r, s.handle, s.attempts, accept, now, n);
        assert forall|i: int| 0 <= i < r.sessions.len() implies (
        #[trigger] after.sessions[i]).handle == r.sessions[i].handle && (i != p
            ==> after.sessions[i] == r.sessions[i]) by {
            assert(rest.sessions[i].handle == r.sessions[i].handle);
            if i < p {
                assert(r.sessions[i].handle != r.sessions[p].handle);
            } else if p < i {
                assert(r.sessions[p].handle != r.sessions[i].handle);
            }
        }
        assert(after.sessions[p].attempts.len() == s.attempts.len());
        assert forall|j: int| 0 <= j < s.attempts.len() implies ({
            let b = s.attempts[j];
            let x = #[trigger] after.sessions[p].attempts[j];
            &&& x.seq == b.seq && x.outcome == b.outcome && x.approach == b.approach
            &&& j >= n ==> x == b
            &&& j < n ==> x.confidence == if accept && b.outcome is Promising {
                b.confidence.up(Score(4_581_421_828_931_458_171))
            } else if !accept && !(b.outcome is Promising) {
                b.confidence.down(Score(4_581_421_828_931_458_171))
            } else {
                b.confidence
            }
        }) by {
            let x = mid[j];
            assert(x.seq == s.attempts[j].seq);
        }
    }
}

/// Where the suggestion of a session is accepted, its promising attempts are
/// trusted more; where it is dismissed, those that were rejected or came to a
/// part only are trusted less. All others are trusted as before, and so are
/// those of every other session.
pub proof fn law_response_weighs_the_attempts(
    d: DispatcherView,
    args: SuggestionRespondArgs,
    k: int,
    p: int,
)
    requires
        d.wf(),
        lowercase(args.action@) == "accept"@ || lowercase(args.action@) == "dismiss"@,
        0 <= k < d.store.suggestions.len(),
        d.store.suggestions[k].id == args.id,
        forall|i: int| 0 <= i < k ==> (#[trigger] d.store.suggestions[i]).id != args.id,
        0 <= p < d.registry.sessions.len(),
        session_named(d.registry, d.store.suggestions[k].session_id) == Some(
            d.registry.sessions[p].handle,
        ),
        forall|a: int, b: int|
            0 <= a < b < d.registry.sessions[p].attempts.len() ==> (
            #[trigger] d.registry.sessions[p].attempts[a]).seq != (
            #[trigger] d.registry.sessions[p].attempts[b]).seq,
    ensures
        ({
            let after = suggestion_respond(d, args).0.registry.sessions;
            let accept = lowercase(args.action@) == "accept"@;
            let s = d.registry.sessions[p];
            &&& after.len() == d.registry.sessions.len()
            &&& forall|i: int|
                0 <= i < after.len() && i != p ==> #[trigger] after[i] == d.registry.sessions[i]
            &&& after[p].attempts.len() == s.attempts.len()
            &&& forall|j: int|
                0 <= j < s.attempts.len() ==> {
                    let b = s.attempts[j];
                    let a = #[trigger] after[p].attempts[j];
                    &&& a.outcome == b.outcome && a.approach == b.approach
                    &&& a.confidence == if accept && b.outcome is Promising {
                        b.confidence.up(Score(4_581_421_828_931_458_171))
                    } else if !accept && !(b.outcome is Promising) {
                        b.confidence.down(Score(4_581_421_828_931_458_171))
                    } else {
                        b.confidence
                    }
                }
        }),
{
    reveal(suggestion_respond);
    let ss = d.store.suggestions;
    lemma_suggestion_place(ss, args.id, 0);
    assert(suggestion_place(ss, args.id, 0) == k) by {
        let q = suggestion_place(ss, args.id, 0);
        if q < k {
            assert(ss[q].id != args.id);
        } else if k < q {
            assert(ss[k].id != args.id);
        }
    }
    let s = d.registry.sessions[p];
    lemma_session_stands(d.registry.sessions, p);
    lemma_weighed(
        d.registry,
        p,
        lowercase(args.action@) == "accept"@,
        d.store.now,
        s.attempts.len() as int,
    );
    let after = suggestion_respond(d, args).0.registry.sessions;
    assert forall|i: int| 0 <= i < after.len() && i != p implies #[trigger] after[i]
        == d.registry.sessions[i] by {}
}

/// The memories that are loaded at the start of a session are live, three at
/// most, and none that is left out holds more words of the task than one of
/// them.
pub proof fn law_loaded_memories_fit_the_task(s: StateView, task: Seq<char>)
    ensures
        ({
            let list = preloaded(s, task);
            let held = |m: MemoryView| {
                let text = lowercase(m.title + " "@ + m.fragment);
                words(lowercase(task)).filter(
                    |w: Seq<char>|
                        exists|k: int|
                            0 <= k && k + w.len() <= text.len() && #[trigger] text.subrange(
                                k,
                                k + w.len(),
                            ) == w,
                ).len()
            };
            &&& list.len() <= 3
            &&& forall|i: int|
                0 <= i < list.len() ==> s.memories.contains(#[trigger] list[i])
                    && list[i].lifecycle is Live
            &&& forall|i: int, j: int|
                0 <= i < j < list.len() ==> held(#[trigger] list[i]) >= held(#[trigger] list[j])
            &&& forall|m: MemoryView|
                #[trigger] s.memories.contains(m) && m.lifecycle is Live && !list.contains(m) ==> {
                    &&& list.len() == 3
                    &&& forall|i: int| 0 <= i < list.len() ==> held(#[trigger] list[i]) >= held(m)
                }
        }),
{
    let q = lowercase(task);
    let keep = |m: MemoryView| m.lifecycle is Live;
    let key = |m: MemoryView| (-(relevance(m, q) as int), m.id.0 as int);
    lemma_by_id(s.memories);
    lemma_filter_keeps(by_id(s.memories), keep);
    let all = by_id(s.memories).filter(keep);
    lemma_ranked(all, key);
    lemma_ranked_order(all, key);
    let r = ranked(all, key);
    let list = preloaded(s, task);
    assert forall|m: MemoryView| relevance(m, q) == ({
        let text = lowercase(m.title + " "@ + m.fragment);
        words(q).filter(
            |w: Seq<char>|
                exists|k: int|
                    0 <= k && k + w.len() <= text.len() && #[trigger] text.subrange(
                        k,
                        k + w.len(),
                    ) == w,
        ).len()
    }) by {
        lemma_relevance_counts(m, q);
    }
    assert forall|i: int| 0 <= i < list.len() implies s.memories.contains(#[trigger] list[i])
        && list[i].lifecycle is Live by {
        assert(list[i] == r[i]);
        assert(r.contains(r[i]));
        assert(all.contains(r[i]));
    }
    assert forall|i: int, j: int| 0 <= i < j < list.len() implies relevance(
        #[trigger] list[i],
        q,
    ) >= relevance(#[trigger] list[j], q) by {
        assert(list[i] == r[i] && list[j] == r[j]);
    }
    assert forall|m: MemoryView|
        #[trigger] s.memories.contains(m) && m.lifecycle is Live && !list.contains(m) implies {
        &&& list.len() == 3
        &&& forall|i: int|
            0 <= i < list.len() ==> relevance(#[trigger] list[i], q) >= relevance(m, q)
    } by {
        assert(all.contains(m));
        assert(r.contains(m));
        let p = r.index_of(m);
        if p < list.len() {
            assert(list[p] == m);
        }
        assert forall|i: int| 0 <= i < list.len() implies relevance(#[trigger] list[i], q)
            >= relevance(m, q) by {
            assert(list[i] == r[i] && r[p] == m);
        }
    }
}

proof fn lemma_no_suggestion(ss: Seq<SuggestionView>, id: u64, from: int)
    requires
        0 <= from <= ss.len(),
        forall|i: int| 0 <= i < ss.len() ==> (#[trigger] ss[i]).id != id,
    ensures
        suggestion_place(ss, id, from) == ss.len(),
    decreases ss.len() - from,
{
    if from < ss.len() {
        lemma_no_suggestion(ss, id, from + 1);
    }
}

proof fn lemma_last_number(ss: Seq<SuggestionView>)
    ensures
        forall|i: int| 0 <= i < ss.len() ==> (#[trigger] ss[i]).id <= last_number(ss),
    decreases ss.len(),
{
    if ss.len() > 0 {
        lemma_last_number(ss.drop_last());
        assert forall|i: int| 0 <= i < ss.len() implies (#[trigger] ss[i]).id <= last_number(ss) by {
            if i < ss.len() - 1 {
                assert(ss.drop_last()[i] == ss[i]);
            }
        }
    }
}

proof fn lemma_with_lines(
    ss: Seq<SuggestionView>,
    h: SessionHandle,
    lines: Seq<Seq<char>>,
    now: u64,
    n: int,
)
    requires
        0 <= n <= lines.len(),
        last_number(ss) + n <= u64::MAX,
    ensures
        ({
            let after = with_lines(ss, h, lines, now, n);
            &&& after.len() == ss.len() + n
            &&& last_number(after) == last_number(ss) + n
            &&& forall|i: int| 0 <= i < ss.len() ==> #[trigger] after[i] == ss[i]
            &&& forall|i: int|
                ss.len() <= i < after.len() ==> {
                    let x = #[trigger] after[i];
                    &&& x.suggestion == trimmed(lines[i - ss.len()])
                    &&& x.status is Pending
                    &&& x.session_id == Some(uuid_text(h.0))
                    &&& x.created_at == Instant(now)
                    &&& x.id == last_number(ss) + i - ss.len() + 1
                }
        }),
    decreases n,
{
    if n > 0 {
        lemma_with_lines(ss, h, lines, now, n - 1);
        let rest = with_lines(ss, h, lines, now, n - 1);
        lemma_last_number(rest);
        lemma_no_suggestion(rest, (last_number(rest) + 1) as u64, 0);
        let after = with_lines(ss, h, lines, now, n);
        assert(after == rest.push(after.last()));
        assert(after.drop_last() =~= rest);
    }
}

/// What a session that ends suggests to improve is kept, each thing as a
/// suggestion of that session which waits for an answer, behind those that there
/// were.
pub proof fn law_improvements_are_kept(d: DispatcherView, env: IpcEnvelope, args: SessionEndArgs)
    requires
        !blank(args.outcome@),
        TaskOutcome::named(args.outcome@) is Some,
        d.registry.active(env.frontend_id, env.channel_id) is Some,
        session_end(d, env, args).1.structured matches Some(
            ToolDataView::SessionEnded { suggestions: lines },
        ) && last_number(d.store.suggestions) + lines.len() <= u64::MAX,
    ensures
        ({
            let (after, r) = session_end(d, env, args);
            let before = d.store.suggestions;
            let kept = after.store.suggestions;
            let h = d.registry.active(env.frontend_id, env.channel_id)->0;
            &&& !r.is_error
            &&& r.structured matches Some(ToolDataView::SessionEnded { suggestions: lines })
            &&& kept.len() == before.len() + lines.len()
            &&& forall|i: int| 0 <= i < before.len() ==> #[trigger] kept[i] == before[i]
            &&& forall|i: int|
                before.len() <= i < kept.len() ==> {
                    let x = #[trigger] kept[i];
                    &&& x.suggestion == trimmed(lines[i - before.len()])
                    &&& x.status is Pending
                    &&& x.session_id == Some(uuid_text(h.0))
                    &&& x.created_at == Instant(d.store.now)
                    &&& forall|j: int| 0 <= j < before.len() ==> (#[trigger] before[j]).id < x.id
                }
        }),
{
    reveal(session_end);
    let h = d.registry.active(env.frontend_id, env.channel_id)->0;
    let lines = session_end(d, env, args).1.structured->0->SessionEnded_suggestions;
    lemma_with_lines(d.store.suggestions, h, lines, d.store.now, lines.len() as int);
    lemma_last_number(d.store.suggestions);
}

} // verus!
