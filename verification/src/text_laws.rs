//! What holds of the words of every text.

use crate::text::{run, trim_end, trim_start, trimmed, white, words};
use vstd::prelude::*;

verus! {

proof fn lemma_run_of(s: Seq<char>)
    ensures
        run(s) <= s.len(),
        forall|i: int| 0 <= i < run(s) ==> !white(#[trigger] s[i]),
        run(s) < s.len() ==> white(s[run(s) as int]),
    decreases s.len(),
{
    if s.len() > 0 && !white(s[0]) {
        lemma_run_of(s.drop_first());
        assert forall|i: int| 0 <= i < run(s) implies !white(#[trigger] s[i]) by {
            if i > 0 {
                assert(s.drop_first()[i - 1] == s[i]);
            }
        }
    }
}

proof fn lemma_run_up_to(s: Seq<char>, n: int)
    requires
        0 <= n <= s.len(),
        forall|i: int| 0 <= i < n ==> !white(#[trigger] s[i]),
        n < s.len() ==> white(s[n]),
    ensures
        run(s) == n,
    decreases n,
{
    if n > 0 {
        assert(s.drop_first().len() == s.len() - 1);
        assert forall|i: int| 0 <= i < n - 1 implies !white(#[trigger] s.drop_first()[i]) by {
            assert(s.drop_first()[i] == s[i + 1]);
        }
        lemma_run_up_to(s.drop_first(), n - 1);
        assert(!white(s[0]));
    }
}

/// No word is empty or holds white space.
pub proof fn law_words_are_solid(s: Seq<char>)
    ensures
        forall|i: int, k: int|
            0 <= i < words(s).len() && 0 <= k < words(s)[i].len() ==> !white(
                #[trigger] words(s)[i][k],
            ),
        forall|i: int| 0 <= i < words(s).len() ==> (#[trigger] words(s)[i]).len() > 0,
    decreases s.len(),
{
    if s.len() > 0 {
        if white(s[0]) {
            law_words_are_solid(s.drop_first());
            assert(words(s) == words(s.drop_first()));
        } else {
            lemma_run_of(s);
            let n = run(s) as int;
            assert(n > 0);
            let rest = words(s.skip(n));
            law_words_are_solid(s.skip(n));
            assert(words(s) == seq![s.take(n)] + rest);
            assert forall|i: int| 0 <= i < words(s).len() implies (
            #[trigger] words(s)[i]).len() > 0 by {
                if i > 0 {
                    assert(words(s)[i] == rest[i - 1]);
                }
            }
            assert forall|i: int, k: int|
                0 <= i < words(s).len() && 0 <= k < words(s)[i].len() implies !white(
                #[trigger] words(s)[i][k],
            ) by {
                if i > 0 {
                    assert(words(s)[i] == rest[i - 1]);
                    assert(!white(rest[i - 1][k]));
                } else {
                    assert(words(s)[0][k] == s[k]);
                }
            }
        }
    } else {
        assert(words(s) == Seq::<Seq<char>>::empty());
    }
}

/// A text without white space is a word, and one of white space has none.
pub proof fn law_one_word(s: Seq<char>)
    ensures
        s.len() > 0 && (forall|i: int| 0 <= i < s.len() ==> !white(#[trigger] s[i])) ==> words(s)
            == seq![s],
        (forall|i: int| 0 <= i < s.len() ==> white(#[trigger] s[i])) ==> words(s) == Seq::<
            Seq<char>,
        >::empty(),
    decreases s.len(),
{
    if s.len() > 0 && (forall|i: int| 0 <= i < s.len() ==> !white(#[trigger] s[i])) {
        lemma_run_up_to(s, s.len() as int);
        assert(!white(s[0]));
        assert(s.take(s.len() as int) =~= s);
        assert(s.skip(s.len() as int) =~= Seq::empty());
        assert(words(Seq::<char>::empty()) == Seq::<Seq<char>>::empty());
        assert(words(s) =~= seq![s]);
    }
    if s.len() > 0 && (forall|i: int| 0 <= i < s.len() ==> white(#[trigger] s[i])) {
        let t = s.drop_first();
        assert forall|i: int| 0 <= i < t.len() implies white(#[trigger] t[i]) by {
            assert(t[i] == s[i + 1]);
        }
        law_one_word(t);
        assert(white(s[0]));
    }
}

/// The words of two texts with white space between them are those of the first
/// and then those of the second.
pub proof fn law_words_in_a_row(a: Seq<char>, c: char, b: Seq<char>)
    requires
        white(c),
    ensures
        words(a + seq![c] + b) == words(a) + words(b),
    decreases a.len(),
{
    let s = a + seq![c] + b;
    if a.len() == 0 {
        assert(s[0] == c);
        assert(s.drop_first() =~= b);
        assert(words(a) + words(b) =~= words(b));
    } else if white(a[0]) {
        assert(s[0] == a[0]);
        assert(s.drop_first() =~= a.drop_first() + seq![c] + b);
        law_words_in_a_row(a.drop_first(), c, b);
    } else {
        lemma_run_of(a);
        let n = run(a) as int;
        assert(n > 0);
        assert forall|i: int| 0 <= i < n implies !white(#[trigger] s[i]) by {
            assert(s[i] == a[i]);
        }
        if n < a.len() {
            assert(s[n] == a[n]);
        } else {
            assert(s[n] == c);
        }
        lemma_run_up_to(s, n);
        assert(s[0] == a[0]);
        assert(s.take(n) =~= a.take(n));
        assert(s.skip(n) =~= a.skip(n) + seq![c] + b);
        law_words_in_a_row(a.skip(n), c, b);
        assert(words(s) =~= words(a) + words(b));
    }
}

/// What is taken off a text when it is trimmed is white space at its ends, and
/// what is left neither begins nor ends with it.
pub proof fn law_trimming_takes_white_space(s: Seq<char>)
    ensures
        exists|lo: int, hi: int|
            {
                &&& 0 <= lo <= hi <= s.len()
                &&& trimmed(s) == #[trigger] s.subrange(lo, hi)
                &&& forall|i: int| 0 <= i < lo ==> white(#[trigger] s[i])
                &&& forall|i: int| hi <= i < s.len() ==> white(#[trigger] s[i])
                &&& lo < hi ==> !white(s[lo]) && !white(s[hi - 1])
            },
{
    lemma_from(s);
    let lo = s.len() - trim_start(s).len();
    let t = trim_start(s);
    lemma_up_to(t);
    let hi = lo + trim_end(t).len();
    assert(t =~= s.skip(lo));
    assert(trim_end(t) =~= s.subrange(lo, hi));
    assert forall|i: int| hi <= i < s.len() implies white(#[trigger] s[i]) by {
        assert(t[i - lo] == s[i]);
    }
    if lo < hi {
        assert(t[0] == s[lo]);
        assert(t[hi - lo - 1] == s[hi - 1]);
    }
}

proof fn lemma_from(s: Seq<char>)
    ensures
        trim_start(s).len() <= s.len(),
        trim_start(s) == s.skip(s.len() - trim_start(s).len()),
        forall|i: int| 0 <= i < s.len() - trim_start(s).len() ==> white(#[trigger] s[i]),
        trim_start(s).len() > 0 ==> !white(trim_start(s)[0]),
    decreases s.len(),
{
    if s.len() > 0 && white(s[0]) {
        let t = s.drop_first();
        lemma_from(t);
        assert(trim_start(s) =~= s.skip(s.len() - trim_start(s).len()));
        assert forall|i: int| 0 <= i < s.len() - trim_start(s).len() implies white(
            #[trigger] s[i],
        ) by {
            if i > 0 {
                assert(t[i - 1] == s[i]);
            }
        }
    } else {
        assert(s.skip(0) =~= s);
    }
}

proof fn lemma_up_to(s: Seq<char>)
    ensures
        trim_end(s).len() <= s.len(),
        trim_end(s) == s.take(trim_end(s).len() as int),
        forall|i: int| trim_end(s).len() <= i < s.len() ==> white(#[trigger] s[i]),
        trim_end(s).len() > 0 ==> !white(s[trim_end(s).len() - 1]),
    decreases s.len(),
{
    if s.len() > 0 && white(s.last()) {
        let t = s.drop_last();
        lemma_up_to(t);
        assert(trim_end(s) =~= s.take(trim_end(s).len() as int));
        assert forall|i: int| trim_end(s).len() <= i < s.len() implies white(#[trigger] s[i]) by {
            if i < t.len() {
                assert(t[i] == s[i]);
            }
        }
    } else {
        assert(s.take(s.len() as int) =~= s);
    }
}

} // verus!
