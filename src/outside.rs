//! What the library takes from the `regex` crate.

use vstd::prelude::*;
use crate::resolve::opt_view;

verus! {

/// Whether `regex::Regex::new` accepts the pattern.
pub uninterp spec fn regex_compiles(pattern: Seq<char>) -> bool;

/// What `regex::Regex::is_match` answers for a pattern and a text.
pub uninterp spec fn regex_is_match(pattern: Seq<char>, text: Seq<char>) -> bool;

/// The text of the group named `name` in the first match, where both exist
/// (`Regex::captures`, then `Captures::name`).
pub uninterp spec fn regex_named_group(pattern: Seq<char>, text: Seq<char>, name: Seq<char>) -> Option<Seq<char>>;

/// The text of group 1 in the first match, where both exist
/// (`Regex::captures`, then `Captures::get(1)`).
pub uninterp spec fn regex_group_one(pattern: Seq<char>, text: Seq<char>) -> Option<Seq<char>>;

/// Relies on `regex::Regex::new` (`Err` where the pattern does not compile)
/// and `Regex::is_match`.
#[verifier::external_body]
pub(crate) fn regex_matches(pattern: &str, text: &str) -> (r: Option<bool>)
    ensures
        r is Some <==> regex_compiles(pattern@),
        r matches Some(b) ==> b == regex_is_match(pattern@, text@),
{
    match regex::Regex::new(pattern) {
        Ok(re) => Some(re.is_match(text)),
        Err(_) => None,
    }
}

/// Relies on `regex::Regex::new`, `Regex::captures`, `Captures::name` and
/// `Captures::get(1)`: both groups of the first match, as they are.
#[verifier::external_body]
pub(crate) fn regex_groups(pattern: &str, text: &str, name: &str) -> (r: Option<(Option<String>, Option<String>)>)
    ensures
        r is Some <==> regex_compiles(pattern@),
        r matches Some(g) ==> opt_view(g.0) == regex_named_group(pattern@, text@, name@) && opt_view(g.1)
            == regex_group_one(pattern@, text@),
{
    let re = match regex::Regex::new(pattern) {
        Ok(re) => re,
        Err(_) => return None,
    };
    match re.captures(text) {
        Some(c) => Some((c.name(name).map(|m| m.as_str().to_string()), c.get(1).map(|m| m.as_str().to_string()))),
        None => Some((None, None)),
    }
}

} // verus!
