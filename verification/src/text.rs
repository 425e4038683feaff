//! Strings as sequences of characters: the operations on text that the rest of
//! the library is built from.

use vstd::prelude::*;

verus! {

/// The views of a sequence of values.
pub open spec fn views<T: View>(s: Seq<T>) -> Seq<T::V> {
    s.map_values(|x: T| x@)
}

/// The view of an optional value.
pub open spec fn opt_view<T: View>(o: Option<T>) -> Option<T::V> {
    match o {
        Some(x) => Some(x@),
        None => None,
    }
}

/// The view of an optional borrowed string.
pub open spec fn opt_str(o: Option<&str>) -> Option<Seq<char>> {
    match o {
        Some(x) => Some(x@),
        None => None,
    }
}

/// Pushing a value pushes its view.
pub broadcast proof fn lemma_views_push<T: View>(s: Seq<T>, x: T)
    ensures
        #[trigger] views(s.push(x)) == views(s).push(x@),
{
    assert(views(s.push(x)) =~= views(s).push(x@));
}

/// Vectors whose clones keep the views of their items clone to equal views.
pub fn clone_all<T: View + Clone>(v: &Vec<T>) -> (r: Vec<T>)
    requires
        forall|a: T, b: T| #[trigger] cloned::<T>(a, b) ==> a@ == b@,
    ensures
        views(r@) == views(v@),
{
    let r = v.clone();
    proof {
        assert forall|i: int| 0 <= i < v@.len() implies r@[i]@ == v@[i]@ by {
            assert(cloned::<T>(v@[i], r@[i]));
        }
        assert(views(r@) =~= views(v@));
    }
    r
}

/// A copy of a list of strings.
pub fn clone_texts(v: &Vec<String>) -> (r: Vec<String>)
    ensures
        views(r@) == views(v@),
{
    clone_all(v)
}

/// Compares two string slices.
pub fn same(a: &str, b: &str) -> (r: bool)
    ensures
        r == (a@ == b@),
{
    a.to_owned() == b.to_owned()
}

/// `String::push` appends one character.
pub assume_specification[ String::push ](s: &mut String, c: char)
    ensures
        final(s)@ == old(s)@.push(c),
;

/// The characters of a string, in order.
pub fn chars_of(s: &str) -> (r: Vec<char>)
    ensures
        r@ == s@,
{
    let mut out: Vec<char> = Vec::new();
    for c in it: s.chars()
        invariant
            out@ == it.seq().take(it.index() as int),
            it.seq() == s@,
    {
        out.push(c);
    }
    out
}

/// The string of the characters `lo..hi` of a vector.
pub fn string_of(v: &Vec<char>, lo: usize, hi: usize) -> (r: String)
    requires
        lo <= hi <= v.len(),
    ensures
        r@ == v@.subrange(lo as int, hi as int),
{
    let mut out = String::new();
    let mut i: usize = lo;
    while i < hi
        invariant
            lo <= i <= hi <= v.len(),
            out@ == v@.subrange(lo as int, i as int),
        decreases hi - i,
    {
        out.push(v[i]);
        proof {
            assert(v@.subrange(lo as int, i + 1) =~= v@.subrange(lo as int, i as int).push(
                v@[i as int],
            ));
        }
        i += 1;
    }
    out
}

/// The first `n` characters, or all of them.
pub open spec fn first_chars(s: Seq<char>, n: int) -> Seq<char> {
    if s.len() <= n {
        s
    } else {
        s.take(n)
    }
}

/// The string of the first `n` characters of a string.
pub fn take_chars(s: &str, n: usize) -> (r: String)
    ensures
        r@ == first_chars(s@, n as int),
{
    let v = chars_of(s);
    let hi: usize = if v.len() <= n {
        v.len()
    } else {
        n
    };
    let r = string_of(&v, 0, hi);
    proof {
        assert(s@.subrange(0, hi as int) =~= first_chars(s@, n as int));
    }
    r
}

// ---------------------------------------------------------------------------
// Numbers
// ---------------------------------------------------------------------------

/// The character of a decimal digit.
pub open spec fn digit(n: nat) -> char {
    if n == 0 {
        '0'
    } else if n == 1 {
        '1'
    } else if n == 2 {
        '2'
    } else if n == 3 {
        '3'
    } else if n == 4 {
        '4'
    } else if n == 5 {
        '5'
    } else if n == 6 {
        '6'
    } else if n == 7 {
        '7'
    } else if n == 8 {
        '8'
    } else {
        '9'
    }
}

/// The decimal digits of a number, without leading zeros.
pub open spec fn dec(n: nat) -> Seq<char>
    decreases n,
{
    if n < 10 {
        seq![digit(n)]
    } else {
        dec(n / 10).push(digit(n % 10))
    }
}

/// The last `width` decimal digits of a number, with leading zeros.
pub open spec fn dec_padded(n: nat, width: nat) -> Seq<char>
    decreases width,
{
    if width == 0 {
        Seq::empty()
    } else {
        dec_padded(n / 10, (width - 1) as nat).push(digit(n % 10))
    }
}

pub fn digit_char(n: u64) -> (c: char)
    requires
        n < 10,
    ensures
        c == digit(n as nat),
{
    if n == 0 {
        '0'
    } else if n == 1 {
        '1'
    } else if n == 2 {
        '2'
    } else if n == 3 {
        '3'
    } else if n == 4 {
        '4'
    } else if n == 5 {
        '5'
    } else if n == 6 {
        '6'
    } else if n == 7 {
        '7'
    } else if n == 8 {
        '8'
    } else {
        '9'
    }
}

/// The decimal form of a wide number.
pub fn decimal_wide(n: u128) -> (r: String)
    ensures
        r@ == dec(n as nat),
    decreases n,
{
    let mut out = if n < 10 {
        String::new()
    } else {
        decimal_wide(n / 10)
    };
    out.push(digit_char((n % 10) as u64));
    out
}

/// The decimal form of a number.
pub fn decimal(n: u64) -> (r: String)
    ensures
        r@ == dec(n as nat),
{
    decimal_wide(n as u128)
}

/// The last `width` digits of a number, with leading zeros.
pub fn decimal_padded(n: u64, width: u64) -> (r: String)
    ensures
        r@ == dec_padded(n as nat, width as nat),
    decreases width,
{
    if width == 0 {
        String::new()
    } else {
        let mut out = decimal_padded(n / 10, width - 1);
        out.push(digit_char(n % 10));
        out
    }
}

// ---------------------------------------------------------------------------
// White space and case
// ---------------------------------------------------------------------------

/// The code points with the White_Space property.
pub open spec fn white(c: char) -> bool {
    let n = c as u32;
    ||| 0x9 <= n <= 0xd
    ||| n == 0x20
    ||| n == 0x85
    ||| n == 0xa0
    ||| n == 0x1680
    ||| 0x2000 <= n <= 0x200a
    ||| n == 0x2028
    ||| n == 0x2029
    ||| n == 0x202f
    ||| n == 0x205f
    ||| n == 0x3000
}

/// Whether a character is white space.
pub fn is_white(c: char) -> (r: bool)
    ensures
        r == white(c),
{
    let n: u32 = c as u32;
    (0x9 <= n && n <= 0xd) || n == 0x20 || n == 0x85 || n == 0xa0 || n == 0x1680 || (0x2000 <= n
        && n <= 0x200a) || n == 0x2028 || n == 0x2029 || n == 0x202f || n == 0x205f || n == 0x3000
}

/// A string without its leading white space.
pub open spec fn trim_start(s: Seq<char>) -> Seq<char>
    decreases s.len(),
{
    if s.len() > 0 && white(s[0]) {
        trim_start(s.drop_first())
    } else {
        s
    }
}

/// A string without its trailing white space.
pub open spec fn trim_end(s: Seq<char>) -> Seq<char>
    decreases s.len(),
{
    if s.len() > 0 && white(s.last()) {
        trim_end(s.drop_last())
    } else {
        s
    }
}

/// A string without white space at either end.
pub open spec fn trimmed(s: Seq<char>) -> Seq<char> {
    trim_end(trim_start(s))
}

/// The string without white space at either end.
pub fn trim(s: &str) -> (r: String)
    ensures
        r@ == trimmed(s@),
{
    let v = chars_of(s);
    let mut lo: usize = 0;
    proof {
        assert(s@.skip(0) =~= s@);
    }
    while lo < v.len() && is_white(v[lo])
        invariant
            lo <= v.len(),
            v@ == s@,
            trim_start(s@) == trim_start(s@.skip(lo as int)),
        decreases v.len() - lo,
    {
        proof {
            assert(s@.skip(lo as int).drop_first() =~= s@.skip(lo + 1));
        }
        lo += 1;
    }
    let ghost t = s@.skip(lo as int);
    proof {
        assert(trim_start(t) == t);
        assert(t.take(v.len() - lo) =~= t);
    }
    let mut hi: usize = v.len();
    while hi > lo && is_white(v[hi - 1])
        invariant
            lo <= hi <= v.len(),
            v@ == s@,
            t == s@.skip(lo as int),
            trim_end(t) == trim_end(t.take(hi - lo)),
        decreases hi,
    {
        proof {
            let u = t.take(hi - lo);
            assert(u.last() == v@[hi - 1]);
            assert(u.drop_last() =~= t.take(hi - 1 - lo));
        }
        hi -= 1;
    }
    let r = string_of(&v, lo, hi);
    proof {
        let u = t.take(hi - lo);
        assert(u =~= s@.subrange(lo as int, hi as int));
        if hi > lo {
            assert(u.last() == v@[hi - 1]);
        }
        assert(trim_end(u) == u);
    }
    r
}

/// A trimmed string neither starts nor ends with white space, and trimming it
/// again changes nothing.
pub proof fn law_trimmed_stays_trimmed(s: Seq<char>)
    ensures
        trimmed(trimmed(s)) == trimmed(s),
        trimmed(s).len() > 0 ==> !white(trimmed(s)[0]) && !white(trimmed(s).last()),
{
    let t = trim_start(s);
    lemma_trim_start(s);
    lemma_trim_end(t);
    let u = trim_end(t);
    assert(trim_end(u) == u);
    if u.len() > 0 {
        assert(u[0] == t[0]);
    }
    assert(trim_start(u) == u);
}

/// Every character of a trimmed string is one of the string.
pub proof fn lemma_trimmed_part(s: Seq<char>)
    ensures
        trimmed(s).len() <= s.len(),
        forall|i: int| 0 <= i < trimmed(s).len() ==> s.contains(#[trigger] trimmed(s)[i]),
{
    lemma_start_part(s);
    lemma_end_part(trim_start(s));
    assert forall|i: int| 0 <= i < trimmed(s).len() implies s.contains(
        #[trigger] trimmed(s)[i],
    ) by {
        let t = trim_start(s);
        assert(t.contains(trim_end(t)[i]));
        let j = t.index_of(trim_end(t)[i]);
        assert(s.contains(t[j]));
    }
}

proof fn lemma_start_part(s: Seq<char>)
    ensures
        trim_start(s).len() <= s.len(),
        forall|i: int| 0 <= i < trim_start(s).len() ==> s.contains(#[trigger] trim_start(s)[i]),
    decreases s.len(),
{
    if s.len() > 0 && white(s[0]) {
        let r = s.drop_first();
        lemma_start_part(r);
        assert forall|i: int| 0 <= i < trim_start(s).len() implies s.contains(
            #[trigger] trim_start(s)[i],
        ) by {
            assert(r.contains(trim_start(r)[i]));
            assert(s[r.index_of(trim_start(r)[i]) + 1] == trim_start(s)[i]);
        }
    }
}

proof fn lemma_end_part(s: Seq<char>)
    ensures
        trim_end(s).len() <= s.len(),
        forall|i: int| 0 <= i < trim_end(s).len() ==> s.contains(#[trigger] trim_end(s)[i]),
    decreases s.len(),
{
    if s.len() > 0 && white(s.last()) {
        let r = s.drop_last();
        lemma_end_part(r);
        assert forall|i: int| 0 <= i < trim_end(s).len() implies s.contains(
            #[trigger] trim_end(s)[i],
        ) by {
            assert(r.contains(trim_end(r)[i]));
            assert(s[r.index_of(trim_end(r)[i])] == trim_end(s)[i]);
        }
    }
}

proof fn lemma_trim_start(s: Seq<char>)
    ensures
        trim_start(s).len() <= s.len(),
        trim_start(s).len() > 0 ==> !white(trim_start(s)[0]),
    decreases s.len(),
{
    if s.len() > 0 && white(s[0]) {
        lemma_trim_start(s.drop_first());
    }
}

proof fn lemma_trim_end(s: Seq<char>)
    ensures
        trim_end(s).len() <= s.len(),
        trim_end(s).len() > 0 ==> !white(trim_end(s).last()) && trim_end(s)[0] == s[0],
    decreases s.len(),
{
    if s.len() > 0 && white(s.last()) {
        lemma_trim_end(s.drop_last());
    }
}

/// What `str::to_lowercase` makes of a string.
pub uninterp spec fn lowercase(s: Seq<char>) -> Seq<char>;

/// `str::to_lowercase`: the lower-case form that Unicode gives, which depends
/// on the string alone. Nothing else is claimed of it.
#[verifier::external_body]
pub(crate) fn lower(s: &str) -> (r: String)
    ensures
        r@ == lowercase(s@),
{
    s.to_lowercase()
}

/// The lower-case form of an ASCII capital; any other character itself.
pub open spec fn ascii_lower(c: char) -> char {
    if 'A' <= c <= 'Z' {
        ((c as u32 + 32) as u32) as char
    } else {
        c
    }
}

/// Equality but for the case of ASCII letters.
pub open spec fn eq_fold(a: Seq<char>, b: Seq<char>) -> bool {
    a.len() == b.len() && forall|i: int| 0 <= i < a.len() ==> ascii_lower(a[i]) == ascii_lower(b[i])
}

/// Whether two characters are equal but for the case of ASCII letters.
fn same_folded(a: char, b: char) -> (r: bool)
    ensures
        r == (ascii_lower(a) == ascii_lower(b)),
{
    let x: u32 = a as u32;
    let y: u32 = b as u32;
    let fx: u32 = if 65 <= x && x <= 90 {
        x + 32
    } else {
        x
    };
    let fy: u32 = if 65 <= y && y <= 90 {
        y + 32
    } else {
        y
    };
    fx == fy
}

/// Compares two strings without regard to the case of ASCII letters.
pub fn equal_fold(a: &str, b: &str) -> (r: bool)
    ensures
        r == eq_fold(a@, b@),
{
    let x = chars_of(a);
    let y = chars_of(b);
    if x.len() != y.len() {
        return false;
    }
    let mut i: usize = 0;
    while i < x.len()
        invariant
            i <= x.len(),
            x.len() == y.len(),
            x@ == a@,
            y@ == b@,
            forall|j: int| 0 <= j < i ==> ascii_lower(a@[j]) == ascii_lower(b@[j]),
        decreases x.len() - i,
    {
        if !same_folded(x[i], y[i]) {
            return false;
        }
        i += 1;
    }
    true
}

// ---------------------------------------------------------------------------
// Parts of a string
// ---------------------------------------------------------------------------

/// Whether `p` stands in `s` at position `i`.
pub open spec fn at(s: Seq<char>, p: Seq<char>, i: int) -> bool {
    0 <= i && i + p.len() <= s.len() && s.subrange(i, i + p.len()) == p
}

/// Whether `p` stands somewhere in `s`.
pub open spec fn part_of(p: Seq<char>, s: Seq<char>) -> bool {
    exists|i: int| at(s, p, i)
}

/// What stands in a text stands in every text that holds it.
pub proof fn lemma_part_within(p: Seq<char>, before: Seq<char>, s: Seq<char>, after: Seq<char>)
    requires
        part_of(p, s),
    ensures
        part_of(p, before + s + after),
{
    let i = choose|i: int| at(s, p, i);
    let all = before + s + after;
    assert(all.subrange(before.len() + i, before.len() + i + p.len()) =~= s.subrange(
        i,
        i + p.len(),
    ));
    assert(at(all, p, before.len() + i));
}

/// A text stands in itself.
pub proof fn lemma_part_self(p: Seq<char>)
    ensures
        part_of(p, p),
{
    assert(p.subrange(0, p.len() as int) =~= p);
    assert(at(p, p, 0));
}

fn stands_at(s: &Vec<char>, p: &Vec<char>, i: usize) -> (r: bool)
    requires
        i + p.len() <= s.len(),
    ensures
        r == at(s@, p@, i as int),
{
    let mut j: usize = 0;
    while j < p.len()
        invariant
            i + p.len() <= s.len(),
            j <= p.len(),
            forall|k: int| 0 <= k < j ==> s@[i + k] == p@[k],
        decreases p.len() - j,
    {
        if s[i + j] != p[j] {
            proof {
                assert(s@.subrange(i as int, i + p@.len())[j as int] == s@[i + j]);
            }
            return false;
        }
        j += 1;
    }
    proof {
        assert(s@.subrange(i as int, i + p@.len()) =~= p@);
    }
    true
}

/// Whether the string holds another.
pub fn contains(s: &str, p: &str) -> (r: bool)
    ensures
        r == part_of(p@, s@),
{
    let x = chars_of(s);
    let y = chars_of(p);
    if y.len() > x.len() {
        return false;
    }
    let mut i: usize = 0;
    let last: usize = x.len() - y.len();
    while i <= last
        invariant
            x@ == s@,
            y@ == p@,
            y.len() <= x.len(),
            last == x.len() - y.len(),
            i <= last + 1,
            forall|j: int| 0 <= j < i ==> !at(s@, p@, j),
        decreases last + 1 - i,
    {
        if stands_at(&x, &y, i) {
            return true;
        }
        if i == last {
            return false;
        }
        i += 1;
    }
    false
}

/// The length of the run of characters at the start that are not white space.
pub open spec fn run(s: Seq<char>) -> nat
    decreases s.len(),
{
    if s.len() > 0 && !white(s[0]) {
        1 + run(s.drop_first())
    } else {
        0
    }
}

proof fn lemma_run(s: Seq<char>)
    ensures
        run(s) <= s.len(),
    decreases s.len(),
{
    if s.len() > 0 && !white(s[0]) {
        lemma_run(s.drop_first());
    }
}

/// The words of a string: its longest runs of characters that are not white
/// space, in order.
pub open spec fn words(s: Seq<char>) -> Seq<Seq<char>>
    decreases s.len(),
{
    if s.len() == 0 {
        Seq::empty()
    } else if white(s[0]) {
        words(s.drop_first())
    } else if run(s) <= s.len() {
        seq![s.take(run(s) as int)] + words(s.skip(run(s) as int))
    } else {
        Seq::empty()
    }
}

/// The words of a string, in order.
pub fn split_words(s: &str) -> (r: Vec<String>)
    ensures
        views(r@) == words(s@),
{
    let v = chars_of(s);
    let mut out: Vec<String> = Vec::new();
    let mut i: usize = 0;
    proof {
        assert(s@.skip(0) =~= s@);
        assert(views(out@) + words(s@) =~= words(s@));
    }
    while i < v.len()
        invariant
            i <= v.len(),
            v@ == s@,
            views(out@) + words(s@.skip(i as int)) == words(s@),
        decreases v.len() - i,
    {
        let ghost rest = s@.skip(i as int);
        if is_white(v[i]) {
            proof {
                assert(rest.drop_first() =~= s@.skip(i + 1));
            }
            i += 1;
        } else {
            let mut j: usize = i;
            while j < v.len() && !is_white(v[j])
                invariant
                    i <= j <= v.len(),
                    i < v.len(),
                    v@ == s@,
                    rest == s@.skip(i as int),
                    run(rest) == (j - i) + run(s@.skip(j as int)),
                decreases v.len() - j,
            {
                proof {
                    assert(s@.skip(j as int).drop_first() =~= s@.skip(j + 1));
                }
                j += 1;
            }
            proof {
                assert(run(rest) == j - i);
                assert(!white(rest[0]));
            }
            let ghost before = out@;
            let word = string_of(&v, i, j);
            proof {
                assert(s@.subrange(i as int, j as int) =~= rest.take(j - i));
                assert(rest.skip(j - i) =~= s@.skip(j as int));
                lemma_run(rest);
                assert(run(rest) > 0);
            }
            out.push(word);
            proof {
                assert(views(out@) =~= views(before).push(rest.take(j - i)));
                assert(views(out@) + words(s@.skip(j as int)) =~= views(before) + (seq![
                    rest.take(j - i),
                ] + words(s@.skip(j as int))));
            }
            i = j;
        }
    }
    proof {
        assert(s@.skip(i as int).len() == 0);
        assert(views(out@) + words(s@.skip(i as int)) =~= views(out@));
    }
    out
}

/// Strings with a separator between them.
pub open spec fn joined(parts: Seq<Seq<char>>, sep: Seq<char>) -> Seq<char>
    decreases parts.len(),
{
    if parts.len() == 0 {
        Seq::empty()
    } else if parts.len() == 1 {
        parts[0]
    } else {
        joined(parts.drop_last(), sep) + sep + parts.last()
    }
}

/// Joins strings with a separator.
pub fn join(parts: &Vec<String>, sep: &str) -> (r: String)
    ensures
        r@ == joined(views(parts@), sep@),
{
    let mut out = String::new();
    let mut i: usize = 0;
    while i < parts.len()
        invariant
            i <= parts.len(),
            out@ == joined(views(parts@).take(i as int), sep@),
        decreases parts.len() - i,
    {
        if i > 0 {
            out.append(sep);
        }
        out.append(parts[i].as_str());
        proof {
            let t = views(parts@).take(i + 1);
            assert(t.drop_last() =~= views(parts@).take(i as int));
            assert(t.last() == parts@[i as int]@);
            if i == 0 {
                assert(out@ =~= parts@[0]@);
            }
        }
        i += 1;
    }
    proof {
        assert(views(parts@).take(parts@.len() as int) =~= views(parts@));
    }
    out
}

/// Whether a list of strings holds a string.
pub fn holds(list: &Vec<String>, s: &str) -> (r: bool)
    ensures
        r == views(list@).contains(s@),
{
    let mut i: usize = 0;
    while i < list.len()
        invariant
            i <= list.len(),
            forall|j: int| 0 <= j < i ==> list@[j]@ != s@,
        decreases list.len() - i,
    {
        if same(list[i].as_str(), s) {
            proof {
                assert(views(list@)[i as int] == s@);
            }
            return true;
        }
        i += 1;
    }
    proof {
        assert forall|j: int| 0 <= j < views(list@).len() implies views(list@)[j] != s@ by {
            assert(views(list@)[j] == list@[j]@);
        }
    }
    false
}

/// Appends an item to a list of texts unless it is there already.
pub open spec fn with_text(list: Seq<Seq<char>>, s: Seq<char>) -> Seq<Seq<char>> {
    if list.contains(s) {
        list
    } else {
        list.push(s)
    }
}

/// Appends a string to a list unless it is there already.
pub fn add_text(list: &mut Vec<String>, s: &str)
    ensures
        views(final(list)@) == with_text(views(old(list)@), s@),
{
    if !holds(list, s) {
        list.push(s.to_owned());
        proof {
            assert(views(list@) =~= views(old(list)@).push(s@));
        }
    }
}

/// The items of `add` appended in order to `list`, each unless it is there
/// already.
pub open spec fn with_texts(list: Seq<Seq<char>>, add: Seq<Seq<char>>) -> Seq<Seq<char>>
    decreases add.len(),
{
    if add.len() == 0 {
        list
    } else {
        with_text(with_texts(list, add.drop_last()), add.last())
    }
}

/// Appends strings to a list in order, each unless it is there already.
pub fn add_texts(list: &mut Vec<String>, add: &Vec<String>)
    ensures
        views(final(list)@) == with_texts(views(old(list)@), views(add@)),
{
    let mut i: usize = 0;
    while i < add.len()
        invariant
            i <= add.len(),
            views(list@) == with_texts(views(old(list)@), views(add@).take(i as int)),
        decreases add.len() - i,
    {
        add_text(list, add[i].as_str());
        proof {
            let t = views(add@).take(i + 1);
            assert(t.drop_last() =~= views(add@).take(i as int));
            assert(t.last() == add@[i as int]@);
        }
        i += 1;
    }
    proof {
        assert(views(add@).take(add@.len() as int) =~= views(add@));
    }
}

proof fn lemma_with_texts_step(list: Seq<Seq<char>>, add: Seq<Seq<char>>)
    requires
        list.no_duplicates(),
    ensures
        with_texts(list, add).no_duplicates(),
    decreases add.len(),
{
    if add.len() > 0 {
        lemma_with_texts_step(list, add.drop_last());
    }
}

/// Collecting texts keeps the first occurrence of each and adds no repetition:
/// what held no text twice still does not, nothing is lost, and what is there
/// came from one of the two lists.
pub proof fn law_with_texts(list: Seq<Seq<char>>, add: Seq<Seq<char>>)
    ensures
        list.no_duplicates() ==> with_texts(list, add).no_duplicates(),
        list.is_prefix_of(with_texts(list, add)),
        forall|x: Seq<char>| #[trigger]
            with_texts(list, add).contains(x) <==> list.contains(x) || add.contains(x),
    decreases add.len(),
{
    if list.no_duplicates() {
        lemma_with_texts_step(list, add);
    }
    if add.len() > 0 {
        let rest = add.drop_last();
        let mid = with_texts(list, rest);
        let all = with_texts(list, add);
        law_with_texts(list, rest);
        assert forall|x: Seq<char>| #[trigger] all.contains(x) <==> list.contains(x)
            || add.contains(x) by {
            if add.contains(x) {
                let i = choose|i: int| 0 <= i < add.len() && add[i] == x;
                if i < rest.len() {
                    assert(rest[i] == x);
                    assert(rest.contains(x));
                }
            }
            if rest.contains(x) {
                let i = choose|i: int| 0 <= i < rest.len() && rest[i] == x;
                assert(add[i] == x);
            }
            assert(add[add.len() - 1] == add.last());
            if mid.contains(x) {
                let i = choose|i: int| 0 <= i < mid.len() && mid[i] == x;
                assert(all[i] == x);
            }
            if all.contains(x) {
                let i = choose|i: int| 0 <= i < all.len() && all[i] == x;
                if i < mid.len() {
                    assert(mid[i] == x);
                }
            }
            assert(all.contains(add.last())) by {
                if !mid.contains(add.last()) {
                    assert(all[mid.len() as int] == add.last());
                }
            }
        }
    }
}

} // verus!
