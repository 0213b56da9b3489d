use vstd::prelude::*;

use regex::Error as RegexError;

verus! {

/// The error `regex::Regex::new` reports for a pattern it cannot compile.
#[verifier::external_type_specification]
#[verifier::external_body]
pub struct ExRegexError(RegexError);

/// What compiling `pattern` with the regex crate and searching `text` with it gives:
/// `None` when the pattern does not compile; else `Some(None)` when nothing matches, or
/// `Some(Some(groups))` with the capture groups of the first match, group 0 first, each
/// holding the text it matched or `None` where it took no part in the match.
pub uninterp spec fn regex_captures(pattern: Seq<char>, text: Seq<char>) -> Option<
    Option<Seq<Option<Seq<char>>>>,
>;

/// The texts of capture groups, as characters.
pub open spec fn groups_view(groups: Seq<Option<String>>) -> Seq<Option<Seq<char>>> {
    groups.map_values(
        |g: Option<String>|
            match g {
                Some(s) => Some(s@),
                None => None,
            },
    )
}

/// Compiles `pattern` with `regex::Regex::new` and calls `Regex::captures` on `text`,
/// handing back the text of every group of the first match (`Captures::iter`, each
/// `Match::as_str`).
///
/// Trusted: the outcome depends on `pattern` and `text` alone and is what
/// `regex_captures` names; which groups match is not stated here.
#[verifier::external_body]
pub(crate) fn captures(pattern: &str, text: &str) -> (r: Result<
    Option<Vec<Option<String>>>,
    RegexError,
>)
    ensures
        r is Err <==> regex_captures(pattern@, text@) is None,
        r matches Ok(found) ==> regex_captures(pattern@, text@) == Some(
            match found {
                Some(groups) => Some(groups_view(groups@)),
                None => None,
            },
        ),
{
    let re = regex::Regex::new(pattern)?;
    Ok(re.captures(text).map(|c| c.iter().map(|g| g.map(|m| m.as_str().to_string())).collect()))
}

} // verus!
