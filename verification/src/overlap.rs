//! Words in common: how much two texts speak of the same things.

use crate::double::{quotient, ratio, Double};
use crate::rank::{lemma_filter_ends, lemma_filter_step};
use crate::text::{
    add_texts, chars_of, holds, lower, lowercase, split_words, string_of, views, with_texts, words,
};
use vstd::prelude::*;

verus! {

/// How many bytes a character takes in UTF-8.
pub open spec fn char_bytes(c: char) -> nat {
    if (c as int) < 0x80 {
        1
    } else if (c as int) < 0x800 {
        2
    } else if (c as int) < 0x10000 {
        3
    } else {
        4
    }
}

/// How many bytes a text takes in UTF-8.
pub open spec fn byte_len(s: Seq<char>) -> nat
    decreases s.len(),
{
    if s.len() == 0 {
        0
    } else {
        byte_len(s.drop_last()) + char_bytes(s.last())
    }
}

fn bytes_of_char(c: char) -> (r: usize)
    ensures
        r == char_bytes(c),
        1 <= r <= 4,
{
    let u: u32 = c as u32;
    if u < 0x80 {
        1
    } else if u < 0x800 {
        2
    } else if u < 0x10000 {
        3
    } else {
        4
    }
}

/// How many bytes a text takes in UTF-8, if that is less than a limit.
pub fn bytes_below(s: &str, limit: u64) -> (r: Option<u64>)
    requires
        limit <= u64::MAX - 4,
    ensures
        match r {
            Some(n) => n == byte_len(s@) && n < limit,
            None => byte_len(s@) >= limit,
        },
{
    let v = chars_of(s);
    let mut n: u64 = 0;
    let mut i: usize = 0;
    proof {
        assert(s@.take(0) =~= Seq::empty());
    }
    if limit == 0 {
        return None;
    }
    while i < v.len()
        invariant
            i <= v@.len(),
            v@ == s@,
            n == byte_len(s@.take(i as int)),
            n < limit,
            limit <= u64::MAX - 4,
        decreases v@.len() - i,
    {
        proof {
            let t = s@.take(i + 1);
            assert(t.drop_last() =~= s@.take(i as int));
            assert(t.last() == s@[i as int]);
        }
        n = n + bytes_of_char(v[i]) as u64;
        i += 1;
        if n >= limit {
            proof {
                lemma_bytes_grow(s@, i as int);
            }
            return None;
        }
    }
    proof {
        assert(s@.take(s@.len() as int) =~= s@);
    }
    Some(n)
}

proof fn lemma_bytes_grow(s: Seq<char>, i: int)
    requires
        0 <= i <= s.len(),
    ensures
        byte_len(s.take(i)) <= byte_len(s),
    decreases s.len(),
{
    if i == s.len() {
        assert(s.take(i) =~= s);
    } else {
        lemma_bytes_grow(s.drop_last(), i);
        assert(s.drop_last().take(i) =~= s.take(i));
    }
}

/// How many bytes a text takes in UTF-8.
pub fn bytes_of(s: &str) -> (r: u128)
    ensures
        r == byte_len(s@),
        r <= 4 * usize::MAX,
{
    let v = chars_of(s);
    let mut n: u128 = 0;
    let mut i: usize = 0;
    proof {
        assert(s@.take(0) =~= Seq::empty());
    }
    while i < v.len()
        invariant
            i <= v@.len(),
            v@ == s@,
            n == byte_len(s@.take(i as int)),
            n <= 4 * i,
        decreases v@.len() - i,
    {
        proof {
            let t = s@.take(i + 1);
            assert(t.drop_last() =~= s@.take(i as int));
            assert(t.last() == s@[i as int]);
        }
        n = n + bytes_of_char(v[i]) as u128;
        i += 1;
    }
    proof {
        assert(s@.take(s@.len() as int) =~= s@);
    }
    n
}

/// How many characters, from `from` on, `n` bytes hold: the place behind the
/// last of them.
pub open spec fn byte_cut(s: Seq<char>, n: int, from: int) -> int
    decreases s.len() - from,
{
    if from < 0 || from >= s.len() || char_bytes(s[from]) > n {
        from
    } else {
        byte_cut(s, n - char_bytes(s[from]), from + 1)
    }
}

/// The characters of a text that `n` bytes hold.
pub fn take_bytes(s: &str, n: usize) -> (r: String)
    ensures
        0 <= byte_cut(s@, n as int, 0) <= s@.len(),
        r@ == s@.take(byte_cut(s@, n as int, 0)),
{
    let v = chars_of(s);
    let mut left: usize = n;
    let mut i: usize = 0;
    while i < v.len() && bytes_of_char(v[i]) <= left
        invariant
            i <= v@.len(),
            v@ == s@,
            byte_cut(s@, n as int, 0) == byte_cut(s@, left as int, i as int),
        decreases v@.len() - i,
    {
        left = left - bytes_of_char(v[i]);
        i += 1;
    }
    proof {
        assert(byte_cut(s@, n as int, 0) == i);
        assert(v@.subrange(0, i as int) =~= s@.take(i as int));
    }
    string_of(&v, 0, i)
}

/// The different words of a list, in the order in which they come first.
pub open spec fn distinct(ws: Seq<Seq<char>>) -> Seq<Seq<char>> {
    with_texts(Seq::empty(), ws)
}

pub fn distinct_words(ws: &Vec<String>) -> (r: Vec<String>)
    ensures
        views(r@) == distinct(views(ws@)),
{
    let mut out: Vec<String> = Vec::new();
    proof {
        assert(views(out@) =~= Seq::empty());
    }
    add_texts(&mut out, ws);
    out
}

/// How many items of one list the other holds.
pub open spec fn common(a: Seq<Seq<char>>, b: Seq<Seq<char>>) -> nat {
    a.filter(|w: Seq<char>| b.contains(w)).len()
}

pub fn count_common(a: &Vec<String>, b: &Vec<String>) -> (r: usize)
    ensures
        r == common(views(a@), views(b@)),
        r <= a@.len(),
{
    let ghost s = views(a@);
    let ghost keep = |w: Seq<char>| views(b@).contains(w);
    let mut n: usize = 0;
    let mut i: usize = 0;
    proof {
        lemma_filter_ends(s, keep);
    }
    while i < a.len()
        invariant
            i <= a@.len(),
            n <= i,
            s == views(a@),
            keep == (|w: Seq<char>| views(b@).contains(w)),
            n == s.take(i as int).filter(keep).len(),
        decreases a@.len() - i,
    {
        proof {
            lemma_filter_step(s, i as int, keep);
            assert(s[i as int] == a@[i as int]@);
        }
        if holds(b, a[i].as_str()) {
            n += 1;
        }
        i += 1;
    }
    proof {
        lemma_filter_ends(s, keep);
    }
    n
}

/// The different words of a text in lower case.
pub open spec fn vocabulary(s: Seq<char>) -> Seq<Seq<char>> {
    distinct(words(lowercase(s)))
}

pub fn vocabulary_of(s: &str) -> (r: Vec<String>)
    ensures
        views(r@) == vocabulary(s@),
{
    distinct_words(&split_words(lower(s).as_str()))
}

/// How much of their words two texts have in common: the part that both have
/// of all that either has.
pub open spec fn overlap(a: Seq<char>, b: Seq<char>) -> Double {
    let ta = vocabulary(a);
    let tb = vocabulary(b);
    if ta.len() == 0 || tb.len() == 0 {
        ratio(0, 1)
    } else {
        ratio(common(ta, tb), (ta.len() + tb.len() - common(ta, tb)) as nat)
    }
}

/// The part of their words that two texts have in common.
pub fn word_overlap(a: &str, b: &str) -> (r: Double)
    ensures
        r == overlap(a@, b@),
        r.within(210),
        r.e <= 15,
{
    let ta = vocabulary_of(a);
    let tb = vocabulary_of(b);
    if ta.len() == 0 || tb.len() == 0 {
        return quotient(0, 1);
    }
    let inter: usize = count_common(&ta, &tb);
    let only: usize = ta.len() - inter;
    quotient(inter as u128, only as u128 + tb.len() as u128)
}

/// Whether `std` counts a character as a letter or a digit.
pub uninterp spec fn alphanumeric(c: char) -> bool;

/// `char::is_alphanumeric` of the standard library: whether the character is
/// alphabetic or numeric in Unicode. It depends on the character alone.
#[verifier::external_body]
pub(crate) fn is_alphanumeric(c: char) -> (r: bool)
    ensures
        r == alphanumeric(c),
{
    c.is_alphanumeric()
}

} // verus!
