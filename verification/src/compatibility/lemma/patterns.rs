//! Regular expressions, as the `regex` crate matches and replaces them.

use vstd::prelude::*;

verus! {

/// Whether the `regex` crate finds the pattern in a text. A pattern that it
/// cannot read is found nowhere.
pub uninterp spec fn matched(pattern: Seq<char>, text: Seq<char>) -> bool;

/// The text with every occurrence of the pattern replaced; the text itself where
/// the `regex` crate cannot read the pattern.
pub uninterp spec fn replaced(pattern: Seq<char>, text: Seq<char>, with: Seq<char>) -> Seq<char>;

/// `regex::Regex::is_match` on the expression that `regex::Regex::new` reads.
/// It depends on the pattern and the text alone.
#[verifier::external_body]
pub(crate) fn is_match(pattern: &str, text: &str) -> (r: bool)
    ensures
        r == matched(pattern@, text@),
{
    match regex::Regex::new(pattern) {
        Ok(re) => re.is_match(text),
        Err(_) => false,
    }
}

/// `regex::Regex::replace_all` on the expression that `regex::Regex::new` reads:
/// all matches that do not overlap are replaced, from left to right, and the
/// text is handed back as it is where there is none. It depends on the arguments
/// alone.
#[verifier::external_body]
pub(crate) fn replace_all(pattern: &str, text: &str, with: &str) -> (r: String)
    ensures
        r@ == replaced(pattern@, text@, with@),
        !matched(pattern@, text@) ==> r@ == text@,
{
    match regex::Regex::new(pattern) {
        Ok(re) => re.replace_all(text, with).to_string(),
        Err(_) => text.to_string(),
    }
}

} // verus!
