//! URLs, read and written by the `url` crate.
use crate::spotify_dbus;
use crate::text;
use vstd::prelude::*;

verus! {

/// The page on which a user allows the recorder to read their metadata.
pub const AUTHORIZE_PAGE: &'static str = "https://accounts.spotify.com/authorize";

/// The pages of tracks, without the identifier of a track.
pub const TRACK_PAGE: &'static str = "https://open.spotify.com/track/";

/// The identifier of the track whose page a text is the plain link to.
pub open spec fn track_page(text: Seq<char>) -> Option<Seq<char>> {
    match text::after_prefix(text, TRACK_PAGE@) {
        Some(id) => if spotify_dbus::valid_id(id) {
            Some(id)
        } else {
            None
        },
        None => None,
    }
}

/// What is read of a URL.
pub struct Link {
    pub scheme: String,
    pub host: Option<String>,
    pub path: String,
    /// The decoded name and value of each query parameter.
    pub pairs: Vec<(String, String)>,
}

/// What a link holds.
pub struct LinkView {
    pub scheme: Seq<char>,
    pub host: Option<Seq<char>>,
    pub path: Seq<char>,
    pub pairs: Seq<(Seq<char>, Seq<char>)>,
}

/// The views of a list of pairs of strings.
pub open spec fn pair_views(pairs: Seq<(String, String)>) -> Seq<(Seq<char>, Seq<char>)> {
    pairs.map_values(|p: (String, String)| (p.0@, p.1@))
}

impl View for Link {
    type V = LinkView;

    open spec fn view(&self) -> LinkView {
        LinkView {
            scheme: self.scheme@,
            host: text::option_view(self.host),
            path: self.path@,
            pairs: pair_views(self.pairs@),
        }
    }
}

/// What `url::Url::parse` makes of a text: the parts of the URL, or the words
/// in which it says what is wrong.
pub uninterp spec fn link_of(text: Seq<char>) -> Result<LinkView, Seq<char>>;

/// The URL that `url::Url` writes for `base` with further query parameters, or
/// the words in which it says what is wrong with `base`.
pub uninterp spec fn link_with_pairs(base: Seq<char>, pairs: Seq<(Seq<char>, Seq<char>)>) -> Result<
    Seq<char>,
    Seq<char>,
>;

/// Calls `url::Url::parse` and reads `scheme`, `host_str`, `path` and
/// `query_pairs` off the result; an error is given in its own words. All of it
/// depends on the text alone. The plain link to the page of a track, which has
/// nothing to be escaped or made small, is a URL with Spotify's host, and its path
/// is what follows the host.
#[verifier::external_body]
pub(crate) fn parse_link(text: &str) -> (r: Result<Link, String>)
    ensures
        match r {
            Ok(link) => link_of(text@) == Ok::<LinkView, Seq<char>>(link@),
            Err(message) => link_of(text@) == Err::<LinkView, Seq<char>>(message@),
        },
        match r {
            Ok(link) => track_page(text@) is Some ==> link@.host == Some("open.spotify.com"@)
                && link@.path == "/track/"@ + track_page(text@)->0,
            Err(_) => track_page(text@) is None,
        },
{
    match url::Url::parse(text) {
        Ok(url) => Ok(
            Link {
                scheme: url.scheme().to_string(),
                host: url.host_str().map(|host| host.to_string()),
                path: url.path().to_string(),
                pairs: url.query_pairs().map(|p| (p.0.into_owned(), p.1.into_owned())).collect(),
            },
        ),
        Err(error) => Err(error.to_string()),
    }
}

/// Calls `url::Url::parse` on the authorization page, then `query_pairs_mut` and
/// `extend_pairs` to append `pairs` to the query.
///
/// It does not fail, because the page is a URL. The URL that it makes, when it is
/// parsed again, has the pairs that were put in, in their order: what
/// `extend_pairs` writes, `query_pairs` reads. (Parsing it again is an error only
/// where it has grown over four gigabytes.)
#[verifier::external_body]
pub(crate) fn extend_link(base: &str, pairs: &Vec<(String, String)>) -> (r: Result<String, String>)
    requires
        base@ == AUTHORIZE_PAGE@,
    ensures
        match r {
            Ok(text) => link_with_pairs(base@, pair_views(pairs@)) == Ok::<Seq<char>, Seq<char>>(
                text@,
            ),
            Err(_) => false,
        },
        link_of(r->Ok_0@) is Ok ==> link_of(r->Ok_0@)->Ok_0.pairs == pair_views(pairs@),
{
    match url::Url::parse(base) {
        Ok(mut url) => {
            url.query_pairs_mut().extend_pairs(pairs);
            Ok(url.to_string())
        },
        Err(error) => Err(error.to_string()),
    }
}

/// The segments of a path: what stands between its slashes, after a leading one.
pub open spec fn segments(path: Seq<char>) -> Option<Seq<Seq<char>>> {
    if path.len() > 0 && path[0] == '/' {
        Some(text::split(text::Charset::One('/'), path.drop_first()))
    } else {
        None
    }
}

/// The segments of a path, if it starts with a slash.
pub fn path_segments(path: &str) -> (r: Option<Vec<Vec<char>>>)
    ensures
        match r {
            Some(parts) => segments(path@) == Some(text::runs(parts@)),
            None => segments(path@) is None,
        },
{
    let cs = text::chars_of(path);
    if cs.len() > 0 && cs[0] == '/' {
        let rest = vstd::slice::slice_subrange(cs.as_slice(), 1, cs.len());
        assert(rest@ =~= path@.drop_first());
        Some(text::split_at(text::Charset::One('/'), rest))
    } else {
        None
    }
}

} // verus!
