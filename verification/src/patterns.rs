//! Regular expressions, as the `regex` crate reads and matches them.

use vstd::prelude::*;

verus! {

/// The capture groups of the leftmost match of the regular expression `pattern` in
/// `haystack`: for each group of the pattern, the whole match being group 0, the text
/// that the group matched, or `None` where the group took no part in the match. `None`
/// where the pattern matches nowhere in `haystack` or is not a regular expression.
pub uninterp spec fn regex_captures(pattern: Seq<char>, haystack: Seq<char>) -> Option<
    Seq<Option<Seq<char>>>,
>;

/// The smallest index of a regular expression among `patterns` that matches somewhere in
/// `haystack`. `None` where none of them matches or one of them is not a regular
/// expression.
pub uninterp spec fn regex_set_first_match(patterns: Seq<Seq<char>>, haystack: Seq<char>) -> Option<
    nat,
>;

/// `haystack` with the leftmost match of the regular expression `pattern` replaced by
/// `replacement`, in which `$name` and `${name}` stand for capture groups of the match;
/// `haystack` itself where the pattern matches nowhere. `None` where `pattern` is not a
/// regular expression.
pub uninterp spec fn regex_replace(
    pattern: Seq<char>,
    haystack: Seq<char>,
    replacement: Seq<char>,
) -> Option<Seq<char>>;

/// Whether `pattern` is a regular expression that the `regex` crate accepts.
pub uninterp spec fn regex_is_valid(pattern: Seq<char>) -> bool;

/// The texts of capture groups.
pub open spec fn group_views(groups: Seq<Option<String>>) -> Seq<Option<Seq<char>>> {
    groups.map_values(
        |group: Option<String>|
            match group {
                Some(text) => Some(text@),
                None => None,
            },
    )
}

/// The texts of patterns.
pub open spec fn pattern_views(patterns: Seq<String>) -> Seq<Seq<char>> {
    patterns.map_values(|pattern: String| pattern@)
}

/// `regex::Regex::captures` of the regular expression that `regex::Regex::new` makes of
/// `pattern`: the text of every capture group of the leftmost match.
#[verifier::external_body]
pub(crate) fn captures(pattern: &str, haystack: &str) -> (found: Option<Vec<Option<String>>>)
    ensures
        match found {
            Some(groups) => regex_captures(pattern@, haystack@) == Some(group_views(groups@)),
            None => regex_captures(pattern@, haystack@) is None,
        },
{
    let regex = regex::Regex::new(pattern).ok()?;
    let found = regex.captures(haystack)?;
    Some(found.iter().map(|group| group.map(|m| m.as_str().to_owned())).collect())
}

/// `regex::RegexSet::matches` of the set that `regex::RegexSet::new` makes of `patterns`:
/// the first index that the matches hand out, which is the smallest. An index that is
/// handed out is the index of one of the patterns.
#[verifier::external_body]
pub(crate) fn set_first_match(patterns: &Vec<String>, haystack: &str) -> (first: Option<usize>)
    ensures
        match first {
            Some(index) => regex_set_first_match(pattern_views(patterns@), haystack@) == Some(
                index as nat,
            ) && index < patterns@.len(),
            None => regex_set_first_match(pattern_views(patterns@), haystack@) is None,
        },
{
    let set = regex::RegexSet::new(patterns).ok()?;
    set.matches(haystack).iter().next()
}

/// `regex::Regex::replace` of the regular expression that `regex::Regex::new` makes of
/// `pattern`.
#[verifier::external_body]
pub(crate) fn replace(pattern: &str, haystack: &str, replacement: &str) -> (replaced: Option<String>)
    ensures
        match replaced {
            Some(text) => regex_replace(pattern@, haystack@, replacement@) == Some(text@),
            None => regex_replace(pattern@, haystack@, replacement@) is None,
        },
{
    let regex = regex::Regex::new(pattern).ok()?;
    Some(regex.replace(haystack, replacement).into_owned())
}

/// Whether `regex::Regex::new` accepts `pattern`.
#[verifier::external_body]
pub(crate) fn is_valid(pattern: &str) -> (valid: bool)
    ensures
        valid == regex_is_valid(pattern@),
{
    regex::Regex::new(pattern).is_ok()
}

} // verus!
