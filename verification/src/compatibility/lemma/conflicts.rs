//! Finding memories that contradict each other.

use crate::canonical::repository::{legacy_id, legacy_name};
use crate::compatibility::lemma::intelligence::{ConflictPair, ConflictPairView};
use crate::compatibility::lemma::patterns::{is_match, matched};
use crate::domain::memory::{Memory, MemoryView};
use crate::double::{from_whole, quotient, ratio, whole, Double};
use crate::figures::{short_places, short_places_text};
use crate::overlap::{
    alphanumeric, byte_len, bytes_below, common, count_common, distinct, distinct_words,
    is_alphanumeric,
};
use crate::rank::{
    key_ints, lemma_filter_ends, lemma_filter_step, order_by, pick, ranked,
};
use crate::text::{
    chars_of, dec, decimal, is_white, lower, lowercase, same, split_words, string_of, views, white,
    words,
};
use vstd::prelude::*;

verus! {

/// Words that turn a statement round.
pub const NEGATION: &'static str = "\\b(not|don'?t|doesn'?t|didn'?t|won'?t|wouldn'?t|shouldn'?t|can'?t|cannot|never|no\\s)\\b";

/// Words that set one statement against another.
pub const OPPOSITION: &'static str = "\\b(however|but|instead|rather|conversely|on the contrary|actually)\\b";

/// Whether a text negates something.
pub open spec fn negates(text: Seq<char>) -> bool {
    matched(NEGATION@, lowercase(text)) || matched(OPPOSITION@, lowercase(text))
}

pub fn has_negation(text: &str) -> (r: bool)
    ensures
        r == negates(text@),
{
    let t = lower(text);
    is_match(NEGATION, t.as_str()) || is_match(OPPOSITION, t.as_str())
}

/// Words that say nothing of the topic.
pub open spec fn is_stop_word(w: Seq<char>) -> bool {
    ||| w == "the"@
    ||| w == "a"@
    ||| w == "an"@
    ||| w == "is"@
    ||| w == "are"@
    ||| w == "was"@
    ||| w == "were"@
    ||| w == "be"@
    ||| w == "been"@
    ||| w == "being"@
    ||| w == "have"@
    ||| w == "has"@
    ||| w == "had"@
    ||| w == "do"@
    ||| w == "does"@
    ||| w == "did"@
    ||| w == "will"@
    ||| w == "would"@
    ||| w == "could"@
    ||| w == "should"@
    ||| w == "may"@
    ||| w == "might"@
    ||| w == "can"@
    ||| w == "shall"@
    ||| w == "to"@
    ||| w == "of"@
    ||| w == "in"@
    ||| w == "for"@
    ||| w == "on"@
    ||| w == "with"@
    ||| w == "at"@
    ||| w == "by"@
    ||| w == "from"@
    ||| w == "as"@
    ||| w == "into"@
    ||| w == "through"@
    ||| w == "during"@
    ||| w == "before"@
    ||| w == "after"@
    ||| w == "above"@
    ||| w == "below"@
    ||| w == "between"@
    ||| w == "out"@
    ||| w == "off"@
    ||| w == "over"@
    ||| w == "under"@
    ||| w == "again"@
    ||| w == "further"@
    ||| w == "then"@
    ||| w == "once"@
    ||| w == "here"@
    ||| w == "there"@
    ||| w == "when"@
    ||| w == "where"@
    ||| w == "why"@
    ||| w == "how"@
    ||| w == "all"@
    ||| w == "each"@
    ||| w == "every"@
    ||| w == "both"@
    ||| w == "few"@
    ||| w == "more"@
    ||| w == "most"@
    ||| w == "other"@
    ||| w == "some"@
    ||| w == "such"@
    ||| w == "no"@
    ||| w == "nor"@
    ||| w == "not"@
    ||| w == "only"@
    ||| w == "own"@
    ||| w == "same"@
    ||| w == "so"@
    ||| w == "than"@
    ||| w == "too"@
    ||| w == "very"@
    ||| w == "just"@
    ||| w == "because"@
    ||| w == "but"@
    ||| w == "and"@
    ||| w == "or"@
    ||| w == "if"@
    ||| w == "while"@
    ||| w == "about"@
    ||| w == "up"@
    ||| w == "it"@
    ||| w == "its"@
    ||| w == "this"@
    ||| w == "that"@
    ||| w == "these"@
    ||| w == "those"@
    ||| w == "i"@
    ||| w == "me"@
    ||| w == "my"@
    ||| w == "we"@
    ||| w == "our"@
    ||| w == "you"@
    ||| w == "your"@
    ||| w == "he"@
    ||| w == "him"@
    ||| w == "his"@
    ||| w == "she"@
    ||| w == "her"@
    ||| w == "they"@
    ||| w == "them"@
    ||| w == "their"@
    ||| w == "what"@
    ||| w == "which"@
    ||| w == "who"@
    ||| w == "whom"@
    ||| w == "am"@
}

fn stop_word(w: &str) -> (r: bool)
    ensures
        r == is_stop_word(w@),
{
    same(w, "the")
        || same(w, "a")
        || same(w, "an")
        || same(w, "is")
        || same(w, "are")
        || same(w, "was")
        || same(w, "were")
        || same(w, "be")
        || same(w, "been")
        || same(w, "being")
        || same(w, "have")
        || same(w, "has")
        || same(w, "had")
        || same(w, "do")
        || same(w, "does")
        || same(w, "did")
        || same(w, "will")
        || same(w, "would")
        || same(w, "could")
        || same(w, "should")
        || same(w, "may")
        || same(w, "might")
        || same(w, "can")
        || same(w, "shall")
        || same(w, "to")
        || same(w, "of")
        || same(w, "in")
        || same(w, "for")
        || same(w, "on")
        || same(w, "with")
        || same(w, "at")
        || same(w, "by")
        || same(w, "from")
        || same(w, "as")
        || same(w, "into")
        || same(w, "through")
        || same(w, "during")
        || same(w, "before")
        || same(w, "after")
        || same(w, "above")
        || same(w, "below")
        || same(w, "between")
        || same(w, "out")
        || same(w, "off")
        || same(w, "over")
        || same(w, "under")
        || same(w, "again")
        || same(w, "further")
        || same(w, "then")
        || same(w, "once")
        || same(w, "here")
        || same(w, "there")
        || same(w, "when")
        || same(w, "where")
        || same(w, "why")
        || same(w, "how")
        || same(w, "all")
        || same(w, "each")
        || same(w, "every")
        || same(w, "both")
        || same(w, "few")
        || same(w, "more")
        || same(w, "most")
        || same(w, "other")
        || same(w, "some")
        || same(w, "such")
        || same(w, "no")
        || same(w, "nor")
        || same(w, "not")
        || same(w, "only")
        || same(w, "own")
        || same(w, "same")
        || same(w, "so")
        || same(w, "than")
        || same(w, "too")
        || same(w, "very")
        || same(w, "just")
        || same(w, "because")
        || same(w, "but")
        || same(w, "and")
        || same(w, "or")
        || same(w, "if")
        || same(w, "while")
        || same(w, "about")
        || same(w, "up")
        || same(w, "it")
        || same(w, "its")
        || same(w, "this")
        || same(w, "that")
        || same(w, "these")
        || same(w, "those")
        || same(w, "i")
        || same(w, "me")
        || same(w, "my")
        || same(w, "we")
        || same(w, "our")
        || same(w, "you")
        || same(w, "your")
        || same(w, "he")
        || same(w, "him")
        || same(w, "his")
        || same(w, "she")
        || same(w, "her")
        || same(w, "they")
        || same(w, "them")
        || same(w, "their")
        || same(w, "what")
        || same(w, "which")
        || same(w, "who")
        || same(w, "whom")
        || same(w, "am")
}

/// A character of a word or between words; anything else counts as a space.
pub open spec fn plain_char(c: char) -> char {
    if alphanumeric(c) || white(c) {
        c
    } else {
        ' '
    }
}

/// Whether a word says something of the topic: it has more than two bytes and
/// is no stop word.
pub open spec fn is_topic(w: Seq<char>) -> bool {
    byte_len(w) > 2 && !is_stop_word(w)
}

/// The topic of a text: the different words that say something of it.
pub open spec fn topic(text: Seq<char>) -> Seq<Seq<char>> {
    distinct(words(lowercase(text).map_values(|c: char| plain_char(c))).filter(
        |w: Seq<char>| is_topic(w),
    ))
}

pub fn extract_topic_signature(text: &str) -> (r: Vec<String>)
    ensures
        views(r@) == topic(text@),
{
    let t = lower(text);
    let c = chars_of(t.as_str());
    let mut plain: Vec<char> = Vec::new();
    let mut i: usize = 0;
    while i < c.len()
        invariant
            i <= c@.len(),
            plain@.len() == i,
            forall|j: int| 0 <= j < i ==> #[trigger] plain@[j] == plain_char(c@[j]),
        decreases c@.len() - i,
    {
        if is_alphanumeric(c[i]) || is_white(c[i]) {
            plain.push(c[i]);
        } else {
            plain.push(' ');
        }
        i += 1;
    }
    let s = string_of(&plain, 0, plain.len());
    proof {
        assert(s@ =~= lowercase(text@).map_values(|c: char| plain_char(c)));
    }
    let all = split_words(s.as_str());
    let ghost w = views(all@);
    let ghost keep = |w: Seq<char>| is_topic(w);
    let mut kept: Vec<String> = Vec::new();
    let mut k: usize = 0;
    proof {
        lemma_filter_ends(w, keep);
        assert(views(kept@) =~= Seq::empty());
    }
    while k < all.len()
        invariant
            k <= all@.len(),
            w == views(all@),
            keep == (|w: Seq<char>| is_topic(w)),
            views(kept@) == w.take(k as int).filter(keep),
        decreases all@.len() - k,
    {
        broadcast use crate::text::lemma_views_push;

        proof {
            lemma_filter_step(w, k as int, keep);
            assert(w[k as int] == all@[k as int]@);
        }
        if bytes_below(all[k].as_str(), 3).is_none() && !stop_word(all[k].as_str()) {
            kept.push(all[k].clone());
        }
        k += 1;
    }
    proof {
        lemma_filter_ends(w, keep);
    }
    distinct_words(&kept)
}

/// How much two topics have in common: the part that both have of the smaller.
pub open spec fn shared(a: Seq<Seq<char>>, b: Seq<Seq<char>>) -> Double {
    if a.len() == 0 || b.len() == 0 {
        ratio(0, 1)
    } else if a.len() < b.len() {
        ratio(common(a, b), a.len())
    } else {
        ratio(common(a, b), b.len())
    }
}

pub fn topic_overlap(a: &Vec<String>, b: &Vec<String>) -> (r: Double)
    ensures
        r == shared(views(a@), views(b@)),
        r.within(210),
        r.e <= 15,
{
    if a.len() == 0 || b.len() == 0 {
        return quotient(0, 1);
    }
    let n: usize = count_common(a, b);
    if a.len() < b.len() {
        quotient(n as u128, a.len() as u128)
    } else {
        quotient(n as u128, b.len() as u128)
    }
}

/// Whether one text matches the one pattern and the other text the other.
pub open spec fn opposed(p: Seq<char>, q: Seq<char>, a: Seq<char>, b: Seq<char>) -> bool {
    (matched(p, a) && matched(q, b)) || (matched(q, a) && matched(p, b))
}

fn are_opposed(p: &str, q: &str, a: &str, b: &str) -> (r: bool)
    ensures
        r == opposed(p@, q@, a@, b@),
{
    (is_match(p, a) && is_match(q, b)) || (is_match(q, a) && is_match(p, b))
}

/// The greatest weight, in tenths, of the opposites that two texts hold.
pub open spec fn signal(a: Seq<char>, b: Seq<char>) -> nat {
    if opposed("\\balways\\b"@, "\\bnever\\b"@, a, b)
        || opposed("\\buse\\b"@, "\\bdon'?t use\\b"@, a, b) {
        9
    } else if opposed("\\bbest\\b"@, "\\bworst\\b"@, a, b)
        || opposed("\\brecommended\\b"@, "\\bavoid\\b"@, a, b)
        || opposed("\\bprefer\\b"@, "\\bavoid\\b"@, a, b) {
        8
    } else if opposed("\\bgood\\b"@, "\\bbad\\b"@, a, b) {
        7
    } else if opposed("\\bfast\\b"@, "\\bslow\\b"@, a, b)
        || opposed("\\bsimple\\b"@, "\\bcomplex\\b"@, a, b) {
        6
    } else {
        0
    }
}

pub fn detect_contradiction_signals(a: &str, b: &str) -> (r: u64)
    ensures
        r == signal(a@, b@),
        r <= 9,
{
    if are_opposed("\\balways\\b", "\\bnever\\b", a, b)
        || are_opposed("\\buse\\b", "\\bdon'?t use\\b", a, b) {
        9
    } else if are_opposed("\\bbest\\b", "\\bworst\\b", a, b)
        || are_opposed("\\brecommended\\b", "\\bavoid\\b", a, b)
        || are_opposed("\\bprefer\\b", "\\bavoid\\b", a, b) {
        8
    } else if are_opposed("\\bgood\\b", "\\bbad\\b", a, b) {
        7
    } else if are_opposed("\\bfast\\b", "\\bslow\\b", a, b)
        || are_opposed("\\bsimple\\b", "\\bcomplex\\b", a, b) {
        6
    } else {
        0
    }
}

/// How strongly two texts contradict each other.
pub open spec fn conflict_score(share: Double, differs: bool, tenths: nat) -> Double {
    let by_tone = if differs && !share.below(ratio(1, 2)) {
        ratio(3, 5).plus(share.minus(ratio(1, 2)).times(ratio(2, 5)))
    } else {
        ratio(0, 1)
    };
    let by_words = ratio(tenths, 10).times(share);
    if by_tone.below(by_words) {
        by_words
    } else {
        by_tone
    }
}

pub fn score_conflict(a: &str, b: &str, share: Double, differs: bool) -> (r: Double)
    requires
        share.within(210),
        share.e <= 15,
    ensures
        r == conflict_score(share, differs, signal(a@, b@)),
        r.within(1000),
        r.e <= 22,
{
    let half = quotient(1, 2);
    let by_tone = if differs && !share.is_below(half) {
        let rest = share.lessened(half);
        let part = rest.multiplied(quotient(2, 5));
        let base = quotient(3, 5);
        proof {
            assert(share.within(210) && half.within(210));
            assert(rest.within(284));
            assert(part.within(568));
            assert(base.within(568));
            assert(rest.e <= 17);
            assert(part.e <= 20);
            assert(base.e <= -51);
        }
        base.added(part)
    } else {
        quotient(0, 1)
    };
    let weight = quotient(detect_contradiction_signals(a, b) as u128, 10);
    let by_words = weight.multiplied(share);
    proof {
        assert(weight.within(210) && share.within(210));
        assert(signal(a@, b@) <= 10);
        assert(weight.e <= 0);
        assert(weight.m > 0 ==> weight.e <= -51);
        assert(by_words.within(494));
        if weight.m == 0 {
            assert(weight.m * share.m == 0) by (nonlinear_arith)
                requires
                    weight.m == 0,
            ;
            assert(by_words.m == 0);
        }
        assert(by_words.e <= 18);
    }
    if by_tone.is_below(by_words) {
        by_words
    } else {
        by_tone
    }
}

/// The conflict between two memories, if there is one.
pub open spec fn conflict(a: MemoryView, b: MemoryView) -> Option<ConflictPairView> {
    let share = shared(topic(a.fragment), topic(b.fragment));
    let differs = negates(a.fragment) != negates(b.fragment);
    let score = conflict_score(share, differs, signal(a.fragment, b.fragment));
    if share.below(ratio(3, 10)) || score.below(ratio(2, 5)) {
        None
    } else {
        Some(
            ConflictPairView {
                memory_a_id: legacy_name(a),
                memory_a_title: a.title,
                memory_b_id: legacy_name(b),
                memory_b_title: b.title,
                reason: if differs {
                    "Opposing sentiment on same topic"@
                } else {
                    "Contradiction signals detected"@
                },
                overlap_score: score.times(whole(100)).rounded() as u64,
            },
        )
    }
}

/// The conflicts of one memory with those after it, up to the `j`th.
pub open spec fn row(ms: Seq<MemoryView>, i: int, j: int) -> Seq<ConflictPairView>
    decreases j - i,
{
    if j <= i + 1 {
        Seq::empty()
    } else {
        match conflict(ms[i], ms[j - 1]) {
            Some(c) => row(ms, i, j - 1).push(c),
            None => row(ms, i, j - 1),
        }
    }
}

/// The conflicts of the first `i` memories with those after them.
pub open spec fn rows(ms: Seq<MemoryView>, i: int) -> Seq<ConflictPairView>
    decreases i,
{
    if i <= 0 {
        Seq::empty()
    } else {
        rows(ms, i - 1) + row(ms, i - 1, ms.len() as int)
    }
}

/// The conflicts among memories, the strongest first.
pub open spec fn conflicts_among(ms: Seq<MemoryView>) -> Seq<ConflictPairView> {
    ranked(rows(ms, ms.len() as int), |c: ConflictPairView| (-(c.overlap_score as int), 0int))
}

/// The conflict between two memories whose topics and tones are known.
fn conflict_between(
    a: &Memory,
    b: &Memory,
    topic_a: &Vec<String>,
    topic_b: &Vec<String>,
    tone_a: bool,
    tone_b: bool,
) -> (r: Option<ConflictPair>)
    requires
        views(topic_a@) == topic(a@.fragment),
        views(topic_b@) == topic(b@.fragment),
        tone_a == negates(a@.fragment),
        tone_b == negates(b@.fragment),
    ensures
        crate::text::opt_view(r) == conflict(a@, b@),
{
    let share = topic_overlap(topic_a, topic_b);
    if share.is_below(quotient(3, 10)) {
        return None;
    }
    let differs = tone_a != tone_b;
    let score = score_conflict(a.fragment.as_str(), b.fragment.as_str(), share, differs);
    if score.is_below(quotient(2, 5)) {
        return None;
    }
    let hundred = from_whole(100);
    let scaled = score.multiplied(hundred);
    proof {
        assert(score.within(1000) && hundred.within(74));
    }
    let hundredths = scaled.to_rounded() as u64;
    Some(
        ConflictPair {
            memory_a_id: legacy_id(a),
            memory_a_title: a.title.clone(),
            memory_b_id: legacy_id(b),
            memory_b_title: b.title.clone(),
            reason: if differs {
                "Opposing sentiment on same topic".to_owned()
            } else {
                "Contradiction signals detected".to_owned()
            },
            overlap_score: hundredths,
        },
    )
}

pub fn scan_for_conflicts(memories: &Vec<Memory>) -> (r: Vec<ConflictPair>)
    ensures
        views(r@) == conflicts_among(views(memories@)),
{
    let ghost ms = views(memories@);
    let mut topics: Vec<Vec<String>> = Vec::new();
    let mut tones: Vec<bool> = Vec::new();
    let mut k: usize = 0;
    while k < memories.len()
        invariant
            k <= memories@.len(),
            ms == views(memories@),
            topics@.len() == k,
            tones@.len() == k,
            forall|x: int|
                0 <= x < k ==> views((#[trigger] topics@[x])@) == topic(ms[x].fragment),
            forall|x: int| 0 <= x < k ==> #[trigger] tones@[x] == negates(ms[x].fragment),
        decreases memories@.len() - k,
    {
        proof {
            assert(ms[k as int] == memories@[k as int]@);
        }
        topics.push(extract_topic_signature(memories[k].fragment.as_str()));
        tones.push(has_negation(memories[k].fragment.as_str()));
        k += 1;
    }
    let mut out: Vec<ConflictPair> = Vec::new();
    let mut i: usize = 0;
    proof {
        assert(views(out@) =~= rows(ms, 0));
    }
    while i < memories.len()
        invariant
            i <= memories@.len(),
            ms == views(memories@),
            topics@.len() == memories@.len(),
            tones@.len() == memories@.len(),
            forall|x: int|
                0 <= x < memories@.len() ==> views((#[trigger] topics@[x])@) == topic(
                    ms[x].fragment,
                ),
            forall|x: int|
                0 <= x < memories@.len() ==> #[trigger] tones@[x] == negates(ms[x].fragment),
            views(out@) == rows(ms, i as int),
        decreases memories@.len() - i,
    {
        let mut j: usize = i + 1;
        proof {
            assert(row(ms, i as int, j as int) =~= Seq::empty());
            assert(rows(ms, i as int) + row(ms, i as int, j as int) =~= rows(ms, i as int));
        }
        while j < memories.len()
            invariant
                i < memories@.len(),
                i + 1 <= j <= memories@.len(),
                ms == views(memories@),
                topics@.len() == memories@.len(),
                tones@.len() == memories@.len(),
                forall|x: int|
                    0 <= x < memories@.len() ==> views((#[trigger] topics@[x])@) == topic(
                        ms[x].fragment,
                    ),
                forall|x: int|
                    0 <= x < memories@.len() ==> #[trigger] tones@[x] == negates(ms[x].fragment),
                views(out@) == rows(ms, i as int) + row(ms, i as int, j as int),
            decreases memories@.len() - j,
        {
            proof {
                assert(ms[i as int] == memories@[i as int]@);
                assert(ms[j as int] == memories@[j as int]@);
            }
            let ghost before = views(out@);
            match conflict_between(
                &memories[i],
                &memories[j],
                &topics[i],
                &topics[j],
                tones[i],
                tones[j],
            ) {
                Some(c) => {
                    let ghost v = c@;
                    out.push(c);
                    proof {
                        assert(views(out@) =~= before.push(v));
                        assert(before.push(v) =~= rows(ms, i as int) + row(
                            ms,
                            i as int,
                            j as int,
                        ).push(v));
                    }
                },
                None => {},
            }
            j += 1;
        }
        i += 1;
    }
    let mut keys: Vec<(i128, u128)> = Vec::new();
    let ghost key = |c: ConflictPairView| (-(c.overlap_score as int), 0int);
    let mut n: usize = 0;
    while n < out.len()
        invariant
            n <= out@.len(),
            keys@.len() == n,
            forall|x: int|
                0 <= x < n ==> (#[trigger] keys@[x]).0 == -views(out@)[x].overlap_score
                    && keys@[x].1 == 0,
        decreases out@.len() - n,
    {
        proof {
            assert(views(out@)[n as int] == out@[n as int]@);
        }
        keys.push((-(out[n].overlap_score as i128), 0));
        n += 1;
    }
    let order = order_by(&keys);
    proof {
        assert(key_ints(keys@) =~= views(out@).map_values(key));
    }
    pick(&out, &order)
}

/// One conflict.
pub open spec fn conflict_line_text(
    score: Seq<char>,
    a: Seq<char>,
    ta: Seq<char>,
    b: Seq<char>,
    tb: Seq<char>,
    reason: Seq<char>,
) -> Seq<char> {
    "  ["@ + score + "] ["@ + a + "] \""@ + ta + "\" vs ["@ + b + "] \""@ + tb + "\"\n    Reason: "@ + reason + "\n"@
}

pub fn conflict_line(score: &str, a: &str, ta: &str, b: &str, tb: &str, reason: &str) -> (r: String)
    ensures
        r@ == conflict_line_text(score@, a@, ta@, b@, tb@, reason@),
{
    let mut out = "  [".to_owned();
    out.append(score);
    out.append("] [");
    out.append(a);
    out.append("] \"");
    out.append(ta);
    out.append("\" vs [");
    out.append(b);
    out.append("] \"");
    out.append(tb);
    out.append("\"\n    Reason: ");
    out.append(reason);
    out.append("\n");
    out
}

/// How many conflicts were found.
pub open spec fn conflict_head_text(n: nat) -> Seq<char> {
    "=== CONFLICT DETECTION ===\nFound "@ + dec(n) + " potential conflict(s):\n\n"@
}

pub fn conflict_head(n: usize) -> (r: String)
    ensures
        r@ == conflict_head_text(n as nat),
{
    let mut out = "=== CONFLICT DETECTION ===\nFound ".to_owned();
    out.append(decimal(n as u64).as_str());
    out.append(" potential conflict(s):\n\n");
    out
}

/// Conflicts one after the other.
pub open spec fn conflict_lines(cs: Seq<ConflictPairView>) -> Seq<char>
    decreases cs.len(),
{
    if cs.len() == 0 {
        Seq::empty()
    } else {
        let c = cs.last();
        conflict_lines(cs.drop_last()) + conflict_line_text(
            short_places(c.overlap_score as nat),
            c.memory_a_id,
            c.memory_a_title,
            c.memory_b_id,
            c.memory_b_title,
            c.reason,
        )
    }
}

/// The conflicts as text.
pub open spec fn conflicts_text(cs: Seq<ConflictPairView>) -> Seq<char> {
    if cs.len() == 0 {
        "No conflicts detected."@
    } else {
        conflict_head_text(cs.len()) + conflict_lines(cs)
            + "\nUse memory_relate with type \"contradicts\" to link these."@
    }
}

pub fn format_conflict_results(conflicts: &Vec<ConflictPair>) -> (r: String)
    ensures
        r@ == conflicts_text(views(conflicts@)),
{
    if conflicts.len() == 0 {
        return "No conflicts detected.".to_owned();
    }
    let mut out = conflict_head(conflicts.len());
    let ghost head = out@;
    let ghost cs = views(conflicts@);
    let mut i: usize = 0;
    proof {
        assert(cs.take(0) =~= Seq::empty());
        assert(head + conflict_lines(cs.take(0)) =~= head);
    }
    while i < conflicts.len()
        invariant
            i <= conflicts@.len(),
            cs == views(conflicts@),
            out@ == head + conflict_lines(cs.take(i as int)),
        decreases conflicts@.len() - i,
    {
        let c = &conflicts[i];
        let line = conflict_line(
            short_places_text(c.overlap_score as u128).as_str(),
            c.memory_a_id.as_str(),
            c.memory_a_title.as_str(),
            c.memory_b_id.as_str(),
            c.memory_b_title.as_str(),
            c.reason.as_str(),
        );
        out.append(line.as_str());
        proof {
            let t = cs.take(i + 1);
            assert(t.drop_last() =~= cs.take(i as int));
            assert(t.last() == conflicts@[i as int]@);
            assert(head + conflict_lines(t) =~= head + conflict_lines(cs.take(i as int)) + line@);
        }
        i += 1;
    }
    proof {
        assert(cs.take(cs.len() as int) =~= cs);
    }
    out.append("\nUse memory_relate with type \"contradicts\" to link these.");
    out
}

} // verus!
