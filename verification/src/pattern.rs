//! Regular expressions, matched by the `regex` crate.
use vstd::prelude::*;

verus! {

/// The pattern of a JSON document that a web page holds in base64.
pub const DOCUMENT_PATTERN: &'static str = ">eyJ([^<]+)</";

/// The pattern of a track that a web page names.
pub const TRACK_PATTERN: &'static str =
    "spotify:track:([a-zA-Z0-9]{22})|spotify\\.com/track/([a-zA-Z0-9]{22})";

/// The matches of a pattern in a text, from left to right, each with what its
/// groups hold; `None` where the pattern is no regular expression.
pub uninterp spec fn matches_of(pattern: Seq<char>, text: Seq<char>) -> Option<
    Seq<Seq<Option<Seq<char>>>>,
>;

/// What the groups of a list of matches hold.
pub open spec fn match_views(v: Seq<Vec<Option<String>>>) -> Seq<Seq<Option<Seq<char>>>> {
    v.map_values(|groups: Vec<Option<String>>| groups_view(groups@))
}

/// What the groups of one match hold.
pub open spec fn groups_view(groups: Seq<Option<String>>) -> Seq<Option<Seq<char>>> {
    groups.map_values(|g: Option<String>| crate::text::option_view(g))
}

/// Calls `regex::Regex::new` and `captures_iter`, and hands out each match as
/// the list of its groups. Its outcome depends on the pattern and the text
/// alone. The two patterns above are regular expressions.
#[verifier::external_body]
pub(crate) fn find_all(pattern: &str, text: &str) -> (r: Option<Vec<Vec<Option<String>>>>)
    ensures
        match r {
            Some(found) => matches_of(pattern@, text@) == Some(match_views(found@)),
            None => matches_of(pattern@, text@) is None,
        },
        pattern@ == DOCUMENT_PATTERN@ || pattern@ == TRACK_PATTERN@ ==> r is Some,
{
    match regex::Regex::new(pattern) {
        Ok(regex) => Some(
            regex.captures_iter(text).map(
                |m| m.iter().map(|group| group.map(|g| g.as_str().to_string())).collect(),
            ).collect(),
        ),
        Err(_) => None,
    }
}

} // verus!
