//! Detecting and redacting secrets before a text is stored.
//!
//! The patterns find what commonly looks like a secret; they do not claim to
//! find every one.

use crate::compatibility::lemma::patterns::{matched, replace_all, replaced};
use crate::text::same;
use vstd::prelude::*;

verus! {

/// An API key with its value.
pub const API_KEY: &'static str = "(?i)(api[_-]?key\\s*[:=]\\s*)[\"']?[A-Za-z0-9_-]{8,}[\"']?";

/// A token with its value.
pub const TOKEN: &'static str = "(?i)((access|auth|secret|private)[_-]?token\\s*[:=]\\s*)[\"']?[A-Za-z0-9_-]{8,}[\"']?";

/// A password with its value.
pub const PASSWORD: &'static str = "(?i)(password|passwd|pwd)\\s*[:=]\\s*[\"']?\\S{4,}[\"']?";

/// An AWS access key.
pub const ACCESS_KEY: &'static str = "AKIA[0-9A-Z]{16}";

/// A long bearer token.
pub const BEARER: &'static str = "(?i)(bearer\\s+)[A-Za-z0-9_.-]{20,}";

/// What stands in place of a secret.
pub const PLACEHOLDER: &'static str = "[REDACTED]";

/// A text with every secret that a pattern finds replaced: the patterns are gone
/// through in turn, each on what the one before it left.
pub open spec fn redacted(s: Seq<char>) -> Seq<char> {
    let a = replaced(API_KEY@, s, PLACEHOLDER@);
    let b = replaced(TOKEN@, a, PLACEHOLDER@);
    let c = replaced(PASSWORD@, b, PLACEHOLDER@);
    let d = replaced(ACCESS_KEY@, c, PLACEHOLDER@);
    replaced(BEARER@, d, PLACEHOLDER@)
}

/// Whether one of the patterns finds something in a text.
pub open spec fn suspicious(s: Seq<char>) -> bool {
    ||| matched(API_KEY@, s)
    ||| matched(TOKEN@, s)
    ||| matched(PASSWORD@, s)
    ||| matched(ACCESS_KEY@, s)
    ||| matched(BEARER@, s)
}

/// Whether a text holds something that looks like a secret: whether redacting
/// changes it.
pub fn contains_secret(fragment: &str) -> (r: bool)
    ensures
        r == (redacted(fragment@) != fragment@),
        !suspicious(fragment@) ==> !r,
{
    !same(redact(fragment).as_str(), fragment)
}

/// A text with the secrets that are found in it replaced, all of them. A text in
/// which nothing is found stays as it is.
pub fn redact(fragment: &str) -> (r: String)
    ensures
        r@ == redacted(fragment@),
        !suspicious(fragment@) ==> r@ == fragment@,
{
    let a = replace_all(API_KEY, fragment, PLACEHOLDER);
    let b = replace_all(TOKEN, a.as_str(), PLACEHOLDER);
    let c = replace_all(PASSWORD, b.as_str(), PLACEHOLDER);
    let d = replace_all(ACCESS_KEY, c.as_str(), PLACEHOLDER);
    replace_all(BEARER, d.as_str(), PLACEHOLDER)
}

} // verus!
