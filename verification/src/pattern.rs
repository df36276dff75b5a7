//! Pattern matching over source text, done by the `fancy_regex` engine.

use vstd::prelude::*;

verus! {

#[verifier::external_type_specification]
#[verifier::external_body]
pub struct ExPatternError(fancy_regex::Error);

/// What one step of a search gave.
#[derive(Clone, Debug, PartialEq, Eq)]
pub enum Capture {
    /// A match in which the capture group took this text.
    Text(String),
    /// A match in which the capture group took no text.
    Unset,
    /// No match: the search for the next one failed.
    Failed,
}

/// One step of a search as a plain value: `Ok` of the text that the capture
/// group took in a match, if it took any, and `Err` for a failed search.
pub type Step = Result<Option<Seq<char>>, ()>;

/// What the regex engine finds when it searches `text` for `pattern`.
///
/// `None` where the engine rejects the pattern. Otherwise one item for each
/// step of the search, which goes from left to right over the successive
/// non-overlapping matches: `Ok` with the text that capture group `group`
/// took in that match, or with `None` where the group took none or the
/// pattern has no such group; `Err` where the search for the next match
/// failed, after which the engine looks for no further match.
pub uninterp spec fn regex_captures(pattern: Seq<char>, text: Seq<char>, group: u16) -> Option<
    Seq<Result<Option<Seq<char>>, ()>>,
>;

/// A step of a search as a plain value.
pub open spec fn capture_view(item: Capture) -> Step {
    match item {
        Capture::Text(text) => Ok(Some(text@)),
        Capture::Unset => Ok(None),
        Capture::Failed => Err(()),
    }
}

/// The steps of a search as plain values.
pub open spec fn capture_views(items: Seq<Capture>) -> Seq<Step> {
    items.map_values(|item: Capture| capture_view(item))
}

/// Compiles `pattern` with `fancy_regex::Regex::new` and walks
/// `Regex::captures_iter` over `text`, taking from each match the text of
/// capture group `group` (`Captures::get`, `Match::as_str`).
///
/// The contract claims only that the outcome is the one that the engine
/// always gives for these arguments: an error exactly where it rejects the
/// pattern, else the named sequence of steps. The number of a group is kept
/// small enough for the engine to compute with it.
#[verifier::external_body]
pub(crate) fn capture_group(pattern: &str, text: &str, group: u16) -> (r: Result<
    Vec<Capture>,
    fancy_regex::Error,
>)
    ensures
        match r {
            Ok(items) => regex_captures(pattern@, text@, group) == Some(capture_views(items@)),
            Err(_) => regex_captures(pattern@, text@, group) is None,
        },
{
    let regex = fancy_regex::Regex::new(pattern)?;
    Ok(
        regex.captures_iter(text).map(
            |found| match found {
                Ok(captures) => match captures.get(usize::from(group)) {
                    Some(taken) => Capture::Text(taken.as_str().to_string()),
                    None => Capture::Unset,
                },
                Err(_) => Capture::Failed,
            },
        ).collect(),
    )
}

} // verus!
