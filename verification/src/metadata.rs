//! Tracks: what links name them, what is known of them, and how their files are
//! called.
use crate::json;
use crate::json::Json;
use crate::links;
use crate::output::{Metadata, MetadataView};
use crate::spotify_dbus;
use crate::text;
use std::path::PathBuf;
use vstd::prelude::*;

verus! {

/// What is known of a track.
pub struct TrackInfo {
    pub tags: Metadata,
    pub duration_ms: Option<u64>,
    pub artwork: Option<Artwork>,
}

/// A cover that was downloaded into a file.
pub struct Artwork(pub PathBuf);

/// The tags of a track of which nothing but its identifier is known.
pub open spec fn fallback_tags(id: Seq<char>) -> MetadataView {
    MetadataView { title: Some(id), ..crate::output::no_tags() }
}

impl TrackInfo {
    /// A track of which nothing but its identifier is known: that is its title.
    pub fn fallback(id: &str) -> (r: TrackInfo)
        ensures
            r.tags@ == fallback_tags(id@),
            r.duration_ms is None,
            r.artwork is None,
    {
        let mut tags = Metadata::default();
        tags.title = Some(id.to_owned());
        TrackInfo { tags, duration_ms: None, artwork: None }
    }
}

// ---------------------------------------------------------------------------
// Track identifiers
// ---------------------------------------------------------------------------

/// Why a text names no track.
#[derive(Debug)]
pub enum TrackIdError {
    /// It is no URL, in the words of the parser.
    InvalidUrl(String),
    /// It is a link to somewhere else.
    WrongHost,
    /// It is a link without a path.
    NoPath,
    /// It is a link to something other than one track.
    NotTrack,
    /// What should be the identifier is none.
    InvalidId,
}

/// What a `TrackIdError` says.
pub enum TrackIdFailure {
    InvalidUrl(Seq<char>),
    WrongHost,
    NoPath,
    NotTrack,
    InvalidId,
}

impl View for TrackIdError {
    type V = TrackIdFailure;

    open spec fn view(&self) -> TrackIdFailure {
        match self {
            TrackIdError::InvalidUrl(words) => TrackIdFailure::InvalidUrl(words@),
            TrackIdError::WrongHost => TrackIdFailure::WrongHost,
            TrackIdError::NoPath => TrackIdFailure::NoPath,
            TrackIdError::NotTrack => TrackIdFailure::NotTrack,
            TrackIdError::InvalidId => TrackIdFailure::InvalidId,
        }
    }
}

impl TrackIdFailure {
    /// The failure in words.
    pub open spec fn words(self) -> Seq<char> {
        match self {
            TrackIdFailure::InvalidUrl(words) => words,
            TrackIdFailure::WrongHost => "Use an open.spotify.com track link"@,
            TrackIdFailure::NoPath => "Invalid track link"@,
            TrackIdFailure::NotTrack =>
                "Paste a single track link; playlist/album links are not supported yet"@,
            TrackIdFailure::InvalidId =>
                "Expected a Spotify track URL, URI, or 22-character track ID"@,
        }
    }
}

impl TrackIdError {
    /// The error in words.
    pub fn message(&self) -> (r: String)
        ensures
            r@ == self@.words(),
    {
        match self {
            TrackIdError::InvalidUrl(words) => words.clone(),
            TrackIdError::WrongHost => "Use an open.spotify.com track link".to_owned(),
            TrackIdError::NoPath => "Invalid track link".to_owned(),
            TrackIdError::NotTrack =>
                "Paste a single track link; playlist/album links are not supported yet".to_owned(),
            TrackIdError::InvalidId =>
                "Expected a Spotify track URL, URI, or 22-character track ID".to_owned(),
        }
    }
}

/// The last segment of a path to a track, which may stand below a language.
pub open spec fn track_segment(parts: Seq<Seq<char>>) -> Option<Seq<char>> {
    if parts.len() == 2 && parts[0] == "track"@ {
        Some(parts[1])
    } else if parts.len() == 3 && parts[1] == "track"@ && "intl-"@.is_prefix_of(parts[0]) {
        Some(parts[2])
    } else {
        None
    }
}

/// What a link says the identifier of a track is.
pub open spec fn linked_track(link: links::LinkView) -> Result<Seq<char>, TrackIdFailure> {
    if link.host != Some("open.spotify.com"@) {
        Err(TrackIdFailure::WrongHost)
    } else {
        match links::segments(link.path) {
            None => Err(TrackIdFailure::NoPath),
            Some(parts) => match track_segment(parts) {
                Some(id) => Ok(id),
                None => Err(TrackIdFailure::NotTrack),
            },
        }
    }
}

/// What a text says the identifier of a track is: a track URI, a link or the
/// bare identifier, with white space around it or not.
pub open spec fn named_track(input: Seq<char>) -> Result<Seq<char>, TrackIdFailure> {
    let content = text::trim_white(input);
    match text::after_prefix(content, "spotify:track:"@) {
        Some(id) => Ok(id),
        None => if "https://"@.is_prefix_of(content) {
            match links::link_of(content) {
                Ok(link) => linked_track(link),
                Err(words) => Err(TrackIdFailure::InvalidUrl(words)),
            }
        } else {
            Ok(content)
        },
    }
}

/// The identifier of the track that a text names.
pub open spec fn track_id_of(input: Seq<char>) -> Result<Seq<char>, TrackIdFailure> {
    match named_track(input) {
        Ok(id) => if spotify_dbus::valid_id(id) {
            Ok(id)
        } else {
            Err(TrackIdFailure::InvalidId)
        },
        Err(e) => Err(e),
    }
}

/// The view of a result.
pub open spec fn result_view(r: Result<String, TrackIdError>) -> Result<
    Seq<char>,
    TrackIdFailure,
> {
    match r {
        Ok(s) => Ok(s@),
        Err(e) => Err(e@),
    }
}

/// What a parsed link says the identifier of a track is.
pub fn track_of_link(link: &links::Link) -> (r: Result<String, TrackIdError>)
    ensures
        result_view(r) == linked_track(link@),
{
    let hosted = match &link.host {
        Some(host) => text::same(host.as_str(), "open.spotify.com"),
        None => false,
    };
    if !hosted {
        return Err(TrackIdError::WrongHost);
    }
    match links::path_segments(link.path.as_str()) {
        None => Err(TrackIdError::NoPath),
        Some(parts) => {
            let ghost all = text::runs(parts@);
            if parts.len() == 2 {
                assert(all[0] == parts@[0]@ && all[1] == parts@[1]@);
                let kind = text::string_of(parts[0].as_slice());
                if text::same(kind.as_str(), "track") {
                    return Ok(text::string_of(parts[1].as_slice()));
                }
            } else if parts.len() == 3 {
                assert(all[0] == parts@[0]@ && all[1] == parts@[1]@ && all[2] == parts@[2]@);
                let kind = text::string_of(parts[1].as_slice());
                if text::same(kind.as_str(), "track") && text::starts_with(
                    parts[0].as_slice(),
                    "intl-",
                ) {
                    return Ok(text::string_of(parts[2].as_slice()));
                }
            }
            Err(TrackIdError::NotTrack)
        },
    }
}

proof fn lemma_track_page(content: Seq<char>)
    requires
        links::track_page(content) is Some,
    ensures
        "https://"@.is_prefix_of(content),
        !"spotify:track:"@.is_prefix_of(content),
        links::segments("/track/"@ + links::track_page(content)->0) == Some(
            seq!["track"@, links::track_page(content)->0],
        ),
{
    reveal_strlit("https://open.spotify.com/track/");
    reveal_strlit("https://");
    reveal_strlit("spotify:track:");
    reveal_strlit("/track/");
    reveal_strlit("track");
    let page = links::TRACK_PAGE@;
    let id = links::track_page(content)->0;
    assert(content.take(8) =~= "https://"@) by {
        assert forall|i: int| 0 <= i < 8 implies content[i] == page[i] by {}
    }
    assert(content[0] == page[0]);
    let set = text::Charset::One('/');
    assert forall|i: int| 0 <= i < id.len() implies !text::member(set, #[trigger] id[i]) by {
        assert(text::alphanumeric(id[i]));
    }
    text::lemma_split_none(set, "track"@);
    text::lemma_split_last(set, "track"@, '/', id);
    assert(("/track/"@ + id).drop_first() =~= "track"@.push('/') + id);
    assert(seq!["track"@].push(id) =~= seq!["track"@, id]);
}

/// The identifier of the track that `input` names: a track URI, a link or the
/// bare identifier. The plain link to the page of a track names that track.
pub fn track_id(input: &str) -> (r: Result<String, TrackIdError>)
    ensures
        result_view(r) == track_id_of(input@),
        links::track_page(text::trim_white(input@)) matches Some(id) ==> result_view(r) == Ok::<
            Seq<char>,
            TrackIdFailure,
        >(id),
{
    proof {
        if links::track_page(text::trim_white(input@)) is Some {
            lemma_track_page(text::trim_white(input@));
        }
    }
    let cs = text::chars_of(input);
    let content = text::trim(text::Charset::White, cs.as_slice());
    let id = if let Some(id) = text::strip_prefix(content, "spotify:track:") {
        text::string_of(id)
    } else if text::starts_with(content, "https://") {
        let address = text::string_of(content);
        match links::parse_link(address.as_str()) {
            Ok(link) => match track_of_link(&link) {
                Ok(id) => id,
                Err(e) => return Err(e),
            },
            Err(words) => return Err(TrackIdError::InvalidUrl(words)),
        }
    } else {
        text::string_of(content)
    };
    let cs = text::chars_of(id.as_str());
    if cs.len() == 22 && text::is_alphanumeric(cs.as_slice()) {
        Ok(id)
    } else {
        Err(TrackIdError::InvalidId)
    }
}

proof fn lemma_plain(id: Seq<char>)
    requires
        spotify_dbus::valid_id(id),
    ensures
        text::trim_white(id) == id,
        text::trim_white("spotify:track:"@ + id) == "spotify:track:"@ + id,
        !"spotify:track:"@.is_prefix_of(id),
        !"https://"@.is_prefix_of(id),
{
    reveal_strlit("spotify:track:");
    reveal_strlit("https://");
    assert(text::alphanumeric(id[0]));
    assert(text::alphanumeric(id[21]));
    assert(!text::white_space(id[0]));
    assert(text::trim_start(text::Charset::White, id) == id);
    let uri = "spotify:track:"@ + id;
    assert(uri.last() == id[21]);
    assert(uri[0] == 's');
    assert(text::trim_start(text::Charset::White, uri) == uri);
    if "spotify:track:"@.is_prefix_of(id) {
        assert(id[7] == "spotify:track:"@[7]);
        assert(text::alphanumeric(id[7]));
    }
    if "https://"@.is_prefix_of(id) {
        assert(id[5] == "https://"@[5]);
        assert(text::alphanumeric(id[5]));
    }
}

/// An identifier names its track, by itself and in a URI; the URI can be opened.
pub proof fn law_identifier_names_its_track(id: Seq<char>)
    requires
        spotify_dbus::valid_id(id),
    ensures
        track_id_of(id) == Ok::<Seq<char>, TrackIdFailure>(id),
        track_id_of("spotify:track:"@ + id) == Ok::<Seq<char>, TrackIdFailure>(id),
        spotify_dbus::openable("spotify:track:"@ + id),
{
    lemma_plain(id);
    let uri = "spotify:track:"@ + id;
    assert("spotify:track:"@.is_prefix_of(uri)) by {
        assert(uri.take("spotify:track:"@.len() as int) =~= "spotify:track:"@);
    }
    assert(uri.skip("spotify:track:"@.len() as int) =~= id);
}

/// Whatever text names a track, the identifier has twenty-two ASCII letters and
/// digits; a link names one only on Spotify's host.
pub proof fn law_only_identifiers_are_accepted(input: Seq<char>)
    ensures
        track_id_of(input) matches Ok(id) ==> spotify_dbus::valid_id(id),
        track_id_of(input) is Ok && "https://"@.is_prefix_of(text::trim_white(input))
            ==> links::link_of(text::trim_white(input)) is Ok && links::link_of(
            text::trim_white(input),
        )->Ok_0.host == Some("open.spotify.com"@),
{
    reveal_strlit("spotify:track:");
    reveal_strlit("https://");
    let content = text::trim_white(input);
    if "https://"@.is_prefix_of(content) && "spotify:track:"@.is_prefix_of(content) {
        assert(content[0] == "https://"@[0]);
        assert(content[0] == "spotify:track:"@[0]);
    }
}

/// White space around a text changes nothing of what it names, nor of why it names
/// nothing.
pub proof fn law_white_space_changes_nothing(
    before: Seq<char>,
    input: Seq<char>,
    after: Seq<char>,
)
    requires
        forall|i: int| 0 <= i < before.len() ==> text::white_space(#[trigger] before[i]),
        forall|i: int| 0 <= i < after.len() ==> text::white_space(#[trigger] after[i]),
    ensures
        track_id_of(before + input + after) == track_id_of(input),
{
    text::lemma_trim_around(before, input, after);
}

/// A link to a track on Spotify's host, below a language or not, names that track.
pub proof fn law_link_names_its_track(
    address: Seq<char>,
    link: links::LinkView,
    language: Seq<char>,
    id: Seq<char>,
)
    requires
        text::trim_white(address) == address,
        "https://"@.is_prefix_of(address),
        links::link_of(address) == Ok::<links::LinkView, Seq<char>>(link),
        link.host == Some("open.spotify.com"@),
        links::segments(link.path) == Some(seq!["track"@, id]) || (links::segments(link.path)
            == Some(seq![language, "track"@, id]) && "intl-"@.is_prefix_of(language)),
        spotify_dbus::valid_id(id),
    ensures
        track_id_of(address) == Ok::<Seq<char>, TrackIdFailure>(id),
{
    reveal_strlit("spotify:track:");
    reveal_strlit("https://");
    if "spotify:track:"@.is_prefix_of(address) {
        assert(address[0] == "https://"@[0]);
        assert(address[0] == "spotify:track:"@[0]);
    }
}

/// The URI that Spotify's metadata gives for a track names that track.
pub proof fn law_reported_uri_names_its_track(track_id: Seq<char>)
    ensures
        spotify_dbus::uri_of(track_id) matches Some(uri) ==> track_id_of(uri) == Ok::<
            Seq<char>,
            TrackIdFailure,
        >(spotify_dbus::short_id(track_id)->0),
{
    if let Some(id) = spotify_dbus::short_id(track_id) {
        if spotify_dbus::valid_id(id) {
            law_identifier_names_its_track(id);
        }
    }
}

// ---------------------------------------------------------------------------
// File names
// ---------------------------------------------------------------------------

/// How many bytes a name may take. Linux limits a file name in bytes; this
/// leaves room for a second part, separators and an extension.
pub const NAME_LIMIT: usize = 100;

/// The characters, other than control codes, that no file name may have.
pub open spec fn forbidden(c: char) -> bool {
    c == '/' || c == '\\' || c == ':' || c == '*' || c == '?' || c == '"' || c == '<' || c == '>'
        || c == '|'
}

/// What stands in a file name for a character.
pub open spec fn replaced(c: char) -> char {
    if text::control(c) || forbidden(c) {
        '_'
    } else {
        c
    }
}

/// As much of the front of `s` as takes at most `room` bytes.
pub open spec fn fitting(s: Seq<char>, room: int) -> Seq<char>
    decreases s.len(),
{
    if s.len() == 0 || text::width(s[0]) > room {
        Seq::empty()
    } else {
        seq![s[0]] + fitting(s.drop_first(), room - text::width(s[0]))
    }
}

/// The file name for a text: forbidden characters are replaced, what does not
/// fit is cut off, and dots and white space around the rest are dropped. It is
/// `Track` where nothing is left.
pub open spec fn file_name(value: Seq<char>) -> Seq<char> {
    let kept = text::trimmed(
        text::Charset::WhiteOrDot,
        fitting(value.map_values(|c: char| replaced(c)), NAME_LIMIT as int),
    );
    if kept.len() == 0 {
        "Track"@
    } else {
        kept
    }
}

fn replacement(c: char) -> (r: char)
    ensures
        r == replaced(c),
{
    if text::is_control(c) || c == '/' || c == '\\' || c == ':' || c == '*' || c == '?' || c == '"'
        || c == '<' || c == '>' || c == '|' {
        '_'
    } else {
        c
    }
}

/// A file name for `value`.
pub fn safe_filename(value: &str) -> (r: String)
    ensures
        r@ == file_name(value@),
{
    let cs = text::chars_of(value);
    let ghost mapped = value@.map_values(|c: char| replaced(c));
    let mut kept: Vec<char> = Vec::new();
    let mut size: usize = 0;
    let mut i: usize = 0;
    assert(mapped.skip(0) =~= mapped);
    assert(kept@ + fitting(mapped.skip(0), NAME_LIMIT as int) =~= fitting(
        mapped,
        NAME_LIMIT as int,
    ));
    while i < cs.len()
        invariant_except_break
            kept@ + fitting(mapped.skip(i as int), NAME_LIMIT - size) == fitting(
                mapped,
                NAME_LIMIT as int,
            ),
        invariant
            cs@ == value@,
            mapped == value@.map_values(|c: char| replaced(c)),
            i <= cs@.len(),
            size <= NAME_LIMIT,
        ensures
            kept@ == fitting(mapped, NAME_LIMIT as int),
        decreases cs@.len() - i,
    {
        let c = replacement(cs[i]);
        let width: usize = text::width_of(c);
        let ghost rest = mapped.skip(i as int);
        assert(rest[0] == c);
        assert(rest.drop_first() =~= mapped.skip(i as int + 1));
        if size + width > NAME_LIMIT {
            assert(fitting(rest, NAME_LIMIT - size) =~= Seq::empty());
            assert(kept@ + fitting(rest, NAME_LIMIT - size) =~= kept@);
            break;
        }
        let ghost before = kept@;
        kept.push(c);
        assert(kept@ + fitting(rest.drop_first(), NAME_LIMIT - size - width) =~= before + fitting(
            rest,
            NAME_LIMIT - size,
        ));
        size = size + width;
        i = i + 1;
        if i == cs.len() {
            assert(kept@ + fitting(mapped.skip(i as int), NAME_LIMIT - size) =~= kept@);
        }
    }
    let name = text::trim(text::Charset::WhiteOrDot, kept.as_slice());
    if name.len() == 0 {
        "Track".to_owned()
    } else {
        text::string_of(name)
    }
}

proof fn lemma_fitting(s: Seq<char>, room: int)
    ensures
        fitting(s, room).is_prefix_of(s),
        room >= 0 ==> text::size(fitting(s, room)) <= room,
        fitting(s, room).len() < s.len() ==> text::size(fitting(s, room)) + text::width(
            s[fitting(s, room).len() as int],
        ) > room,
    decreases s.len(),
{
    let f = fitting(s, room);
    if s.len() == 0 || text::width(s[0]) > room {
        assert(text::size(f) == 0);
    } else {
        let rest = fitting(s.drop_first(), room - text::width(s[0]));
        lemma_fitting(s.drop_first(), room - text::width(s[0]));
        text::lemma_size_first(f);
        assert(f.drop_first() =~= rest);
        assert forall|i: int| 0 <= i < f.len() implies f[i] == s[i] by {
            if i > 0 {
                assert(rest[i - 1] == s.drop_first()[i - 1]);
            }
        }
        if f.len() < s.len() {
            assert(s.drop_first()[rest.len() as int] == s[f.len() as int]);
        }
    }
}

/// A file name is one component of a path, and no hidden one: it is not empty,
/// it has no slash, no other forbidden character and no control code, and
/// neither its first nor its last character is a dot or white space. It takes
/// at most a hundred bytes.
pub proof fn law_file_name_is_safe(value: Seq<char>)
    ensures
        file_name(value).len() > 0,
        forall|i: int|
            0 <= i < file_name(value).len() ==> !forbidden(#[trigger] file_name(value)[i])
                && !text::control(file_name(value)[i]),
        !text::member(text::Charset::WhiteOrDot, file_name(value)[0]),
        !text::member(text::Charset::WhiteOrDot, file_name(value).last()),
        text::size(file_name(value)) <= NAME_LIMIT,
{
    let mapped = value.map_values(|c: char| replaced(c));
    let cut = fitting(mapped, NAME_LIMIT as int);
    let set = text::Charset::WhiteOrDot;
    let kept = text::trimmed(set, cut);
    lemma_fitting(mapped, NAME_LIMIT as int);
    text::lemma_trimmed(set, cut);
    text::lemma_size_trimmed(set, cut);
    reveal_strlit("Track");
    if kept.len() == 0 {
        text::lemma_size_ascii("Track"@);
    } else {
        assert forall|i: int| 0 <= i < kept.len() implies !forbidden(#[trigger] kept[i])
            && !text::control(kept[i]) by {
            let c = kept[i];
            assert(kept.contains(c));
            assert(cut.contains(c));
            let j = choose|j: int| 0 <= j < cut.len() && cut[j] == c;
            assert(mapped[j] == replaced(value[j]));
        }
    }
}

/// A text without forbidden characters that does not start with a dot or white
/// space is the front of its own name: what is cut off is whole characters at
/// the end.
pub proof fn law_file_name_is_front_of_text(value: Seq<char>)
    requires
        value.len() > 0,
        !text::member(text::Charset::WhiteOrDot, value[0]),
        forall|i: int|
            0 <= i < value.len() ==> !forbidden(#[trigger] value[i]) && !text::control(value[i]),
    ensures
        file_name(value).is_prefix_of(value),
{
    let mapped = value.map_values(|c: char| replaced(c));
    assert(mapped =~= value);
    let cut = fitting(mapped, NAME_LIMIT as int);
    lemma_fitting(mapped, NAME_LIMIT as int);
    let set = text::Charset::WhiteOrDot;
    text::lemma_trimmed(set, cut);
    assert(cut.len() > 0);
    assert(cut[0] == value[0]);
    let kept = text::trimmed(set, cut);
    if kept.len() == 0 {
        lemma_trim_keeps_first(set, cut);
    }
}

proof fn lemma_trim_keeps_first(set: text::Charset, s: Seq<char>)
    requires
        s.len() > 0,
        !text::member(set, s[0]),
    ensures
        text::trimmed(set, s).len() > 0,
{
    assert(text::trim_start(set, s) == s);
    lemma_trim_end_keeps_first(set, s);
}

proof fn lemma_trim_end_keeps_first(set: text::Charset, s: Seq<char>)
    requires
        s.len() > 0,
        !text::member(set, s[0]),
    ensures
        text::trim_end(set, s).len() > 0,
    decreases s.len(),
{
    if text::member(set, s.last()) {
        lemma_trim_end_keeps_first(set, s.drop_last());
    }
}

/// Two names with the longest extension and a number between them still fit
/// into one file name of Linux, which takes 255 bytes.
pub proof fn law_two_names_fit_one_component(a: Seq<char>, b: Seq<char>)
    ensures
        text::size(file_name(a) + " - "@ + file_name(b) + " (9999).flac"@) <= 255,
{
    law_file_name_is_safe(a);
    law_file_name_is_safe(b);
    reveal_strlit(" - ");
    reveal_strlit(" (9999).flac");
    text::lemma_size_ascii(" - "@);
    text::lemma_size_ascii(" (9999).flac"@);
    text::lemma_size_concat(file_name(a), " - "@);
    text::lemma_size_concat(file_name(a) + " - "@, file_name(b));
    text::lemma_size_concat(file_name(a) + " - "@ + file_name(b), " (9999).flac"@);
}

// ---------------------------------------------------------------------------
// Data of the Web API
// ---------------------------------------------------------------------------

/// The names in a list of objects, in their order; what has no name is left
/// out.
pub open spec fn names_in(items: Seq<json::JsonView>) -> Seq<Seq<char>>
    decreases items.len(),
{
    if items.len() == 0 {
        Seq::empty()
    } else {
        let before = names_in(items.drop_last());
        match items.last().at("name"@).text() {
            Some(name) => before.push(name),
            None => before,
        }
    }
}

/// The names in an array, with commas between them.
pub open spec fn names_of(value: json::JsonView) -> Option<Seq<char>> {
    match value.array() {
        Some(items) => if names_in(items).len() > 0 {
            Some(text::joined(names_in(items), ", "@))
        } else {
            None
        },
        None => None,
    }
}

/// The names in an array, with commas between them, if there are any.
pub fn names(value: &Json) -> (r: Option<String>)
    ensures
        text::option_view(r) == names_of(value@),
{
    let items = match value.as_array() {
        Some(items) => items,
        None => return None,
    };
    let ghost all = json::documents(items@);
    let mut found: Vec<String> = Vec::new();
    assert(all.take(0) =~= Seq::empty());
    assert(text::views(found@) =~= names_in(all.take(0)));
    for i in 0..items.len()
        invariant
            all == json::documents(items@),
            text::views(found@) == names_in(all.take(i as int)),
    {
        let ghost next = all.take(i as int + 1);
        assert(next.drop_last() =~= all.take(i as int));
        assert(next.last() == items@[i as int]@);
        let ghost before = found@;
        if let Some(name) = items[i].text_at("name") {
            let name = name.clone();
            found.push(name);
            assert(text::views(found@) =~= text::views(before).push(name@));
        }
    }
    assert(all.take(all.len() as int) =~= all);
    assert(text::views(found@).len() == found@.len());
    if found.len() == 0 {
        None
    } else {
        Some(text::join(&found, ", "))
    }
}

/// A number written out.
pub open spec fn written(n: Option<u64>) -> Option<Seq<char>> {
    match n {
        Some(n) => Some(text::decimal(n as nat)),
        None => None,
    }
}

/// The tags that the Web API's data on the track `id` give.
pub open spec fn web_tags(id: Seq<char>, data: json::JsonView) -> MetadataView {
    MetadataView {
        title: match data.at("name"@).text() {
            Some(title) => if title.len() > 0 {
                Some(title)
            } else {
                Some(id)
            },
            None => Some(id),
        },
        artist: names_of(data.at("artists"@)),
        album: data.at("album"@).at("name"@).text(),
        date: data.at("album"@).at("release_date"@).text(),
        track: written(data.at("track_number"@).number()),
        disc: written(data.at("disc_number"@).number()),
    }
}

/// Where the Web API's data say that the cover is: the first image of the
/// album.
pub open spec fn cover_url(data: json::JsonView) -> Option<Seq<char>> {
    match data.at("album"@).at("images"@).array() {
        Some(images) => if images.len() > 0 {
            images[0].at("url"@).text()
        } else {
            None
        },
        None => None,
    }
}

/// What the Web API says of a track, and where its cover is.
pub struct Fetched {
    pub info: TrackInfo,
    pub artwork_url: Option<String>,
}

fn write_number(n: Option<u64>) -> (r: Option<String>)
    ensures
        text::option_view(r) == written(n),
{
    match n {
        Some(n) => Some(text::number(n as u128)),
        None => None,
    }
}

fn read_cover_url(data: &Json) -> (r: Option<String>)
    ensures
        text::option_view(r) == cover_url(data@),
{
    match data.get("album") {
        Some(album) => match album.array_at("images") {
            Some(images) => {
                if images.len() > 0 {
                    assert(json::documents(images@)[0] == images@[0]@);
                    text::copied(images[0].text_at("url"))
                } else {
                    None
                }
            },
            None => None,
        },
        None => None,
    }
}

/// What the Web API's data say of the track `id`. The cover is not there before it
/// is downloaded.
pub fn fetch(id: &str, data: &Json) -> (r: Fetched)
    ensures
        r.info.artwork is None,
        r.info.tags@ == web_tags(id@, data@),
        r.info.duration_ms == data@.at("duration_ms"@).number(),
        text::option_view(r.artwork_url) == cover_url(data@),
{
    let mut info = TrackInfo::fallback(id);
    if let Some(title) = data.text_at("name") {
        if !title.as_str().is_empty() {
            info.tags.title = Some(title.clone());
        }
    }
    info.tags.artist = match data.get("artists") {
        Some(artists) => names(artists),
        None => None,
    };
    info.tags.album = text::copied(data.text_below("album", "name"));
    info.tags.date = text::copied(data.text_below("album", "release_date"));
    info.tags.track = write_number(data.number_at("track_number"));
    info.tags.disc = write_number(data.number_at("disc_number"));
    info.duration_ms = data.number_at("duration_ms");
    Fetched { info, artwork_url: read_cover_url(data) }
}

/// Where the Web API keeps the data on a track.
pub fn track_endpoint(id: &str) -> (r: String)
    ensures
        r@ == "https://api.spotify.com/v1/tracks/"@ + id@,
{
    "https://api.spotify.com/v1/tracks/".to_owned().concat(id)
}

/// Why the Web API gave no data.
#[derive(Debug, PartialEq, Eq, Structural)]
pub enum FetchError {
    /// Too many requests, with the seconds to wait where they were said.
    RateLimited(Option<u64>),
    /// Another status.
    Http(u16),
}

/// A status of success.
pub open spec fn success(status: u16) -> bool {
    200 <= status < 300
}

/// What the status of a response of the Web API, and the time to wait that it
/// may give, come to.
pub open spec fn response_outcome(status: u16, retry_after: Option<Seq<char>>) -> Result<
    (),
    FetchError,
> {
    if status == 429 {
        Err(
            FetchError::RateLimited(
                match retry_after {
                    Some(value) => match text::parsed(value, u64::MAX as nat) {
                        Some(n) => Some(n as u64),
                        None => None,
                    },
                    None => None,
                },
            ),
        )
    } else if success(status) {
        Ok(())
    } else {
        Err(FetchError::Http(status))
    }
}

/// Whether a response of the Web API holds data, going by its status and its
/// `retry-after` header.
pub fn check_response(status: u16, retry_after: Option<&str>) -> (r: Result<(), FetchError>)
    ensures
        r == response_outcome(
            status,
            match retry_after {
                Some(value) => Some(value@),
                None => None,
            },
        ),
{
    if status == 429 {
        let wait: Option<u64> = match retry_after {
            Some(value) => {
                let cs = text::chars_of(value);
                text::parse_number(cs.as_slice(), u64::MAX)
            },
            None => None,
        };
        return Err(FetchError::RateLimited(wait));
    }
    if 200 <= status && status < 300 {
        Ok(())
    } else {
        Err(FetchError::Http(status))
    }
}

impl FetchError {
    /// The words of the error, where `status` is the status in words.
    pub open spec fn words(self, status: Seq<char>) -> Seq<char> {
        match self {
            FetchError::RateLimited(Some(wait)) => "rate limited; retry after "@ + text::decimal(
                wait as nat,
            ) + " seconds"@,
            FetchError::RateLimited(None) => "rate limited; retry later"@,
            FetchError::Http(_) => "HTTP "@ + status,
        }
    }

    /// The error in words, where `status` is the status in words.
    pub fn message(&self, status: &str) -> (r: String)
        ensures
            r@ == self.words(status@),
    {
        match self {
            FetchError::RateLimited(Some(wait)) => "rate limited; retry after ".to_owned().concat(
                text::number(*wait as u128).as_str(),
            ).concat(" seconds"),
            FetchError::RateLimited(None) => "rate limited; retry later".to_owned(),
            FetchError::Http(_) => "HTTP ".to_owned().concat(status),
        }
    }
}

/// Whatever the Web API says, the track has a title that is not empty, unless
/// its identifier is.
pub proof fn law_fetched_track_has_title(id: Seq<char>, data: json::JsonView)
    requires
        id.len() > 0,
    ensures
        web_tags(id, data).title is Some,
        web_tags(id, data).title->0.len() > 0,
{
}

// ---------------------------------------------------------------------------
// Artwork
// ---------------------------------------------------------------------------

/// How large a cover may be: eight mebibytes.
pub const ARTWORK_LIMIT: usize = 8388608;

/// Why a cover is not used.
#[derive(Debug)]
pub enum ArtworkError {
    /// Its address is no URL, in the words of the parser.
    InvalidUrl(String),
    /// It is not on Spotify's image host.
    WrongHost,
    /// The server did not give it.
    Refused,
    /// It is too large.
    TooLarge,
    /// It is neither JPEG nor PNG.
    Unsupported,
}

impl ArtworkError {
    /// The words of the error.
    pub open spec fn words(self) -> Seq<char> {
        match self {
            ArtworkError::InvalidUrl(words) => words@,
            ArtworkError::WrongHost => "Unexpected artwork host"@,
            ArtworkError::Refused => "Artwork download failed"@,
            ArtworkError::TooLarge => "Artwork exceeds 8 MiB"@,
            ArtworkError::Unsupported => "Unsupported artwork image"@,
        }
    }

    /// The error in words.
    pub fn message(&self) -> (r: String)
        ensures
            r@ == self.words(),
    {
        match self {
            ArtworkError::InvalidUrl(words) => words.clone(),
            ArtworkError::WrongHost => "Unexpected artwork host".to_owned(),
            ArtworkError::Refused => "Artwork download failed".to_owned(),
            ArtworkError::TooLarge => "Artwork exceeds 8 MiB".to_owned(),
            ArtworkError::Unsupported => "Unsupported artwork image".to_owned(),
        }
    }
}

/// A link to Spotify's image host, over a secure connection.
pub open spec fn on_image_host(link: links::LinkView) -> bool {
    link.scheme == "https"@ && link.host == Some("i.scdn.co"@)
}

/// Whether a link leads to Spotify's image host.
pub fn is_image_link(link: &links::Link) -> (r: bool)
    ensures
        r == on_image_host(link@),
{
    text::same(link.scheme.as_str(), "https") && match &link.host {
        Some(host) => text::same(host.as_str(), "i.scdn.co"),
        None => false,
    }
}

/// Whether a cover may be downloaded from `url`: only from Spotify's image
/// host.
pub fn artwork(url: &str) -> (r: Result<(), ArtworkError>)
    ensures
        match r {
            Ok(_) => links::link_of(url@) is Ok && on_image_host(links::link_of(url@)->Ok_0),
            Err(ArtworkError::InvalidUrl(words)) => links::link_of(url@) == Err::<
                links::LinkView,
                Seq<char>,
            >(words@),
            Err(e) => e == ArtworkError::WrongHost && links::link_of(url@) is Ok && !on_image_host(
                links::link_of(url@)->Ok_0,
            ),
        },
{
    match links::parse_link(url) {
        Ok(link) => {
            if is_image_link(&link) {
                Ok(())
            } else {
                Err(ArtworkError::WrongHost)
            }
        },
        Err(words) => Err(ArtworkError::InvalidUrl(words)),
    }
}

/// Whether the server gave the cover, going by the status of its response.
pub fn check_artwork_response(status: u16) -> (r: Result<(), ArtworkError>)
    ensures
        match r {
            Ok(_) => success(status),
            Err(e) => !success(status) && e == ArtworkError::Refused,
        },
{
    if 200 <= status && status < 300 {
        Ok(())
    } else {
        Err(ArtworkError::Refused)
    }
}

/// The signature with which a JPEG file starts.
pub open spec fn jpeg_signature() -> Seq<u8> {
    seq![0xff, 0xd8]
}

/// The signature with which a PNG file starts.
pub open spec fn png_signature() -> Seq<u8> {
    seq![0x89, 0x50, 0x4e, 0x47, 0x0d, 0x0a, 0x1a, 0x0a]
}

/// A cover while it is downloaded.
pub struct ArtworkBuffer {
    bytes: Vec<u8>,
}

impl View for ArtworkBuffer {
    type V = Seq<u8>;

    closed spec fn view(&self) -> Seq<u8> {
        self.bytes@
    }
}

impl ArtworkBuffer {
    /// Never more than may be.
    pub open spec fn wf(self) -> bool {
        self@.len() <= ARTWORK_LIMIT
    }

    /// Nothing was downloaded yet.
    pub fn new() -> (r: ArtworkBuffer)
        ensures
            r@ == Seq::<u8>::empty(),
            r.wf(),
    {
        ArtworkBuffer { bytes: Vec::new() }
    }

    /// Takes the next part of the cover, if it does not grow too large by it.
    pub fn push(&mut self, chunk: &[u8]) -> (r: Result<(), ArtworkError>)
        requires
            old(self).wf(),
        ensures
            final(self).wf(),
            match r {
                Ok(_) => final(self)@ == old(self)@ + chunk@,
                Err(e) => e == ArtworkError::TooLarge && old(self)@.len() + chunk@.len()
                    > ARTWORK_LIMIT && final(self)@ == old(self)@,
            },
    {
        if chunk.len() > ARTWORK_LIMIT - self.bytes.len() {
            return Err(ArtworkError::TooLarge);
        }
        crate::output::push_bytes(&mut self.bytes, chunk);
        Ok(())
    }

    /// The whole cover, if it is a JPEG or a PNG file.
    pub fn finish(self) -> (r: Result<Vec<u8>, ArtworkError>)
        ensures
            match r {
                Ok(bytes) => bytes@ == self@ && (jpeg_signature().is_prefix_of(self@)
                    || png_signature().is_prefix_of(self@)),
                Err(e) => e == ArtworkError::Unsupported && !jpeg_signature().is_prefix_of(self@)
                    && !png_signature().is_prefix_of(self@),
            },
    {
        let b = &self.bytes;
        let jpeg = b.len() >= 2 && b[0] == 0xff && b[1] == 0xd8;
        let png = b.len() >= 8 && b[0] == 0x89 && b[1] == 0x50 && b[2] == 0x4e && b[3] == 0x47
            && b[4] == 0x0d && b[5] == 0x0a && b[6] == 0x1a && b[7] == 0x0a;
        proof {
            let ghost s = self.bytes@;
            if jpeg {
                assert(s.take(2) =~= jpeg_signature());
            }
            if jpeg_signature().is_prefix_of(s) {
                assert(s[0] == jpeg_signature()[0] && s[1] == jpeg_signature()[1]);
            }
            if png {
                assert(s.take(8) =~= png_signature());
            }
            if png_signature().is_prefix_of(s) {
                assert forall|i: int| 0 <= i < 8 implies #[trigger] s[i] == png_signature()[i] by {}
                assert(s[0] == 0x89 && s[1] == 0x50 && s[2] == 0x4e && s[3] == 0x47 && s[4] == 0x0d
                    && s[5] == 0x0a && s[6] == 0x1a && s[7] == 0x0a);
            }
        }
        if jpeg || png {
            Ok(self.bytes)
        } else {
            Err(ArtworkError::Unsupported)
        }
    }
}

/// The name of the file that holds a cover while it is needed.
pub fn artwork_file_name(process: u32, stamp: u128) -> (r: String)
    ensures
        r@ == ".artwork-"@ + text::decimal(process as nat) + "-"@ + text::decimal(stamp as nat)
            + ".image"@,
{
    ".artwork-".to_owned().concat(text::number(process as u128).as_str()).concat("-").concat(
        text::number(stamp).as_str(),
    ).concat(".image")
}

// ---------------------------------------------------------------------------
// Laws of the names
// ---------------------------------------------------------------------------

/// Where every item of a list has a name, there are as many names as items, and
/// each name stands where its item stands.
pub proof fn law_every_named_item_is_listed(items: Seq<json::JsonView>)
    requires
        forall|i: int| 0 <= i < items.len() ==> (#[trigger] items[i]).at("name"@).text() is Some,
    ensures
        names_in(items).len() == items.len(),
        forall|i: int|
            0 <= i < items.len() ==> Some(names_in(items)[i]) == (#[trigger] items[i]).at(
                "name"@,
            ).text(),
    decreases items.len(),
{
    if items.len() > 0 {
        let before = items.drop_last();
        assert forall|i: int| 0 <= i < before.len() implies (#[trigger] before[i]).at(
            "name"@,
        ).text() is Some by {
            assert(before[i] == items[i]);
        }
        law_every_named_item_is_listed(before);
        assert(items[items.len() - 1].at("name"@).text() is Some);
        assert forall|i: int| 0 <= i < items.len() implies Some(names_in(items)[i]) == (
        #[trigger] items[i]).at("name"@).text() by {
            if i < before.len() {
                assert(before[i] == items[i]);
            }
        }
    }
}

/// Each item of a list contributes by itself and in its place: the names in two
/// lists put together are those in the first, then those in the second.
pub proof fn law_names_come_in_order(first: Seq<json::JsonView>, second: Seq<json::JsonView>)
    ensures
        names_in(first + second) == names_in(first) + names_in(second),
    decreases second.len(),
{
    if second.len() == 0 {
        assert(first + second =~= first);
        assert(names_in(first) + names_in(second) =~= names_in(first));
    } else {
        let whole = first + second;
        assert(whole.drop_last() =~= first + second.drop_last());
        assert(whole.last() == second.last());
        law_names_come_in_order(first, second.drop_last());
        assert(names_in(whole) =~= names_in(first) + names_in(second));
    }
}

/// A list of one item names it by the item's name, and not at all if it has none.
pub proof fn law_one_item_is_named(item: json::JsonView)
    ensures
        names_of(json::JsonView::Array(seq![item])) == item.at("name"@).text(),
{
    let items = seq![item];
    assert(items.drop_last() =~= Seq::empty());
    assert(names_in(items.drop_last()) =~= Seq::empty());
    match item.at("name"@).text() {
        Some(name) => {
            assert(names_in(items) =~= seq![name]);
            text::law_one_part_is_joined(name, ", "@);
        },
        None => {
            assert(names_in(items) =~= Seq::empty());
        },
    }
}

/// The names of a longer list are those of its two parts with a comma and a space
/// between them; a part without a name adds nothing, not even the comma. An empty
/// list, and what is no list, has none.
pub proof fn law_names_are_put_together(
    first: Seq<json::JsonView>,
    second: Seq<json::JsonView>,
    other: json::JsonView,
)
    requires
        !(other is Array),
    ensures
        names_of(json::JsonView::Array(first + second)) == (match (
            names_of(json::JsonView::Array(first)),
            names_of(json::JsonView::Array(second)),
        ) {
            (Some(a), Some(b)) => Some(a + seq![',', ' '] + b),
            (Some(a), None) => Some(a),
            (None, Some(b)) => Some(b),
            (None, None) => None,
        }),
        names_of(json::JsonView::Array(Seq::empty())) is None,
        names_of(other) is None,
{
    reveal_strlit(", ");
    assert(", "@ =~= seq![',', ' ']);
    law_names_come_in_order(first, second);
    let a = names_in(first);
    let b = names_in(second);
    if a.len() == 0 {
        assert(a + b =~= b);
    } else if b.len() == 0 {
        assert(a + b =~= a);
    } else {
        text::law_joined_in_parts(a, b, ", "@);
    }
}

// ---------------------------------------------------------------------------
// Laws of names, links and data
// ---------------------------------------------------------------------------

/// A name that a file can have stays as it is: one that is not empty, takes at most
/// a hundred bytes, has no forbidden character and no control code, and has no
/// white space or full stop at either end.
pub proof fn law_good_names_stay(value: Seq<char>)
    requires
        value.len() > 0,
        text::size(value) <= 100,
        !text::member(text::Charset::WhiteOrDot, value[0]),
        !text::member(text::Charset::WhiteOrDot, value.last()),
        forall|i: int| 0 <= i < value.len() ==> may_stand(#[trigger] value[i]),
    ensures
        file_name(value) == value,
{
    law_characters_are_replaced_one_by_one(value);
    let name = file_name(value);
    assert forall|i: int| 0 <= i < value.len() implies name[i] == value[i] by {
        assert(may_stand(value[i]));
    }
    assert(name =~= value);
}

/// A character that a file name may have: no control code, and none of those that
/// some file system refuses.
pub open spec fn may_stand(c: char) -> bool {
    &&& 0x20 <= c as u32
    &&& !(0x7f <= c as u32 <= 0x9f)
    &&& c != '/' && c != '\\' && c != ':' && c != '*' && c != '?' && c != '"' && c != '<' && c
        != '>' && c != '|'
}

/// In a name that fits and has no white space or full stop at either end, each
/// character that may not stand in a file name becomes an underscore, and every
/// other stays as it is and where it is.
pub proof fn law_characters_are_replaced_one_by_one(value: Seq<char>)
    requires
        value.len() > 0,
        text::size(value) <= 100,
        !text::member(text::Charset::WhiteOrDot, value[0]),
        !text::member(text::Charset::WhiteOrDot, value.last()),
    ensures
        file_name(value).len() == value.len(),
        forall|i: int|
            0 <= i < value.len() ==> #[trigger] file_name(value)[i] == if may_stand(value[i]) {
                value[i]
            } else {
                '_'
            },
{
    let mapped = value.map_values(|c: char| replaced(c));
    lemma_replacing_shrinks(value);
    lemma_all_fits(mapped, NAME_LIMIT as int);
    let set = text::Charset::WhiteOrDot;
    assert(mapped[0] == replaced(value[0]));
    assert(mapped.last() == replaced(value.last()));
    let none = Seq::<char>::empty();
    assert(none + mapped + none =~= mapped);
    text::law_trimming_keeps_the_middle(set, none, mapped, none);
}

proof fn lemma_replacing_shrinks(value: Seq<char>)
    ensures
        text::size(value.map_values(|c: char| replaced(c))) <= text::size(value),
    decreases value.len(),
{
    let mapped = value.map_values(|c: char| replaced(c));
    if value.len() > 0 {
        text::lemma_size_first(value);
        text::lemma_size_first(mapped);
        assert(mapped.drop_first() =~= value.drop_first().map_values(|c: char| replaced(c)));
        lemma_replacing_shrinks(value.drop_first());
        text::lemma_size_ascii(seq!['_']);
    } else {
        assert(mapped =~= value);
    }
}

proof fn lemma_all_fits(s: Seq<char>, room: int)
    requires
        text::size(s) <= room,
    ensures
        fitting(s, room) == s,
    decreases s.len(),
{
    if s.len() > 0 {
        text::lemma_size_first(s);
        lemma_all_fits(s.drop_first(), room - text::width(s[0]));
        assert(seq![s[0]] + s.drop_first() =~= s);
    } else {
        assert(fitting(s, room) =~= s);
    }
}

/// Of a long name as much is kept as fits: whole characters off its front, at most
/// a hundred bytes, and with the next character they would be more.
pub proof fn law_as_much_is_kept_as_fits(s: Seq<char>)
    ensures
        fitting(s, 100).is_prefix_of(s),
        text::size(fitting(s, 100)) <= 100,
        fitting(s, 100).len() < s.len() ==> text::size(fitting(s, 100)) + text::width(
            s[fitting(s, 100).len() as int],
        ) > 100,
        NAME_LIMIT == 100,
{
    lemma_fitting(s, 100);
}

/// A name of which nothing can stand is `Track`.
pub proof fn law_nothing_is_called_track(value: Seq<char>)
    requires
        forall|i: int|
            0 <= i < value.len() ==> (#[trigger] value[i]) == ' ' || value[i] == '.',
    ensures
        file_name(value) == "Track"@,
{
    let mapped = value.map_values(|c: char| replaced(c));
    let set = text::Charset::WhiteOrDot;
    let cut = fitting(mapped, NAME_LIMIT as int);
    lemma_fitting(mapped, NAME_LIMIT as int);
    text::lemma_trimmed(set, cut);
    let kept = text::trimmed(set, cut);
    if kept.len() > 0 {
        let c = kept[0];
        assert(kept.contains(c));
        assert(cut.contains(c));
        let j = choose|j: int| 0 <= j < cut.len() && cut[j] == c;
        assert(cut[j] == mapped[j]);
        assert(mapped[j] == replaced(value[j]));
        assert(text::member(set, c));
    }
}

/// An identifier is twenty-two ASCII letters and digits, and nothing else is one.
pub proof fn law_what_an_identifier_is(id: Seq<char>)
    ensures
        spotify_dbus::valid_id(id) <==> id.len() == 22 && forall|i: int|
            0 <= i < id.len() ==> {
                ||| 'a' <= #[trigger] id[i] <= 'z'
                ||| 'A' <= id[i] <= 'Z'
                ||| '0' <= id[i] <= '9'
            },
{
    if spotify_dbus::valid_id(id) {
        assert forall|i: int| 0 <= i < id.len() implies {
            ||| 'a' <= #[trigger] id[i] <= 'z'
            ||| 'A' <= id[i] <= 'Z'
            ||| '0' <= id[i] <= '9'
        } by {
            assert(text::alphanumeric(id[i]));
        }
        if id.len() != 22 {
            text::lemma_size_ascii(id);
        }
    }
    if id.len() == 22 && forall|i: int|
        0 <= i < id.len() ==> {
            ||| 'a' <= #[trigger] id[i] <= 'z'
            ||| 'A' <= id[i] <= 'Z'
            ||| '0' <= id[i] <= '9'
        } {
        text::lemma_size_ascii(id);
        assert(text::all_alphanumeric(id));
    }
}

/// A link on Spotify's host names a track only where its path is the word for a
/// track and the identifier, as they are or below a language.
pub proof fn law_path_of_a_track(link: links::LinkView, language: Seq<char>, id: Seq<char>)
    requires
        link.host == Some("open.spotify.com"@),
        !id.contains('/'),
        !language.contains('/'),
    ensures
        link.path == "/track/"@ + id ==> linked_track(link) == Ok::<Seq<char>, TrackIdFailure>(id),
        link.path == "/intl-"@ + language + "/track/"@ + id ==> linked_track(link) == Ok::<
            Seq<char>,
            TrackIdFailure,
        >(id),
{
    reveal_strlit("/track/");
    reveal_strlit("/intl-");
    reveal_strlit("track");
    reveal_strlit("intl-");
    let set = text::Charset::One('/');
    let word = "track"@;
    let place = "intl-"@ + language;
    assert forall|i: int| 0 <= i < id.len() implies !text::member(set, #[trigger] id[i]) by {
        if id[i] == '/' {
            assert(id.contains('/'));
        }
    }
    assert forall|i: int| 0 <= i < word.len() implies !text::member(set, #[trigger] word[i]) by {}
    assert forall|i: int| 0 <= i < place.len() implies !text::member(set, #[trigger] place[i]) by {
        if i >= 5 {
            assert(place[i] == language[i - 5]);
            if place[i] == '/' {
                assert(language.contains('/'));
            }
        }
    }
    text::law_one_piece(set, id);
    text::law_one_piece(set, word);
    text::law_one_piece(set, place);
    text::law_separator_cuts(set, word, '/', id);
    let short = word + seq!['/'] + id;
    text::law_separator_cuts(set, place, '/', short);
    assert(("/track/"@ + id).drop_first() =~= short);
    assert(("/intl-"@ + language + "/track/"@ + id).drop_first() =~= place + seq!['/'] + short);
    assert(seq![word] + seq![id] =~= seq![word, id]);
    assert(seq![place] + seq![word, id] =~= seq![place, word, id]);
    assert("intl-"@.is_prefix_of(place)) by {
        assert(place.take(5) =~= "intl-"@);
    }
}

/// The path of a track below a language.
pub open spec fn below_language(path: Seq<char>, language: Seq<char>, id: Seq<char>) -> bool {
    path == "/intl-"@ + language + "/track/"@ + id
}

/// A link to any other host names no track, whatever its path; and neither does a
/// path other than the word for a track and a part after it, as they are or below
/// a language.
pub proof fn law_other_links_name_no_track(link: links::LinkView)
    ensures
        link.host != Some("open.spotify.com"@) ==> linked_track(link) == Err::<
            Seq<char>,
            TrackIdFailure,
        >(TrackIdFailure::WrongHost),
        link.host == Some("open.spotify.com"@) && !(link.path.len() > 0 && link.path[0] == '/')
            ==> linked_track(link) == Err::<Seq<char>, TrackIdFailure>(TrackIdFailure::NoPath),
        linked_track(link) matches Ok(id) ==> !id.contains('/') && (link.path == "/track/"@ + id
            || exists|language: Seq<char>|
            !language.contains('/') && #[trigger] below_language(link.path, language, id)),
{
    if let Ok(id) = linked_track(link) {
        reveal_strlit("/track/");
        reveal_strlit("track");
        let rest = link.path.drop_first();
        let parts = text::split(text::Charset::One('/'), rest);
        text::law_joining_undoes_split(rest, '/');
        text::law_one_part_is_joined(parts[0], seq!['/']);
        text::law_one_part_is_joined(parts[1], seq!['/']);
        let word = "track"@;
        assert(link.path =~= seq!['/'] + rest);
        if parts.len() == 2 {
            assert(parts =~= seq![parts[0]] + seq![parts[1]]);
            text::law_joined_in_parts(seq![parts[0]], seq![parts[1]], seq!['/']);
            assert(!parts[1].contains('/'));
            assert(rest == word + seq!['/'] + id);
            assert(link.path =~= "/track/"@ + id);
        } else {
            text::law_one_part_is_joined(parts[2], seq!['/']);
            let two = seq![parts[0]] + seq![parts[1]];
            assert(parts =~= two + seq![parts[2]]);
            text::law_joined_in_parts(two, seq![parts[2]], seq!['/']);
            text::law_joined_in_parts(seq![parts[0]], seq![parts[1]], seq!['/']);
            reveal_strlit("/intl-");
            reveal_strlit("intl-");
            assert(!parts[0].contains('/') && !parts[2].contains('/'));
            let language = parts[0].skip(5);
            assert(parts[0].take(5) =~= "intl-"@);
            assert(parts[0] =~= "intl-"@ + language);
            assert(!language.contains('/')) by {
                if language.contains('/') {
                    let i = choose|i: int| 0 <= i < language.len() && language[i] == '/';
                    assert(parts[0][i + 5] == '/');
                }
            }
            assert(rest == parts[0] + seq!['/'] + word + seq!['/'] + id);
            assert(link.path =~= "/intl-"@ + language + "/track/"@ + id);
            assert(below_language(link.path, language, id));
        }
    }
}

/// The data of the Web API go into the tags that they are: the name is the title,
/// the album's name the album, its release date the date, and the numbers are
/// written out. Only a title is made up where there is none: the identifier.
pub proof fn law_data_go_into_their_tags(
    id: Seq<char>,
    data: json::JsonView,
    title: Seq<char>,
    album: Seq<char>,
    date: Seq<char>,
    track: u64,
    disc: u64,
)
    ensures
        ({
            let tags = web_tags(id, data);
            let about = data.at("album"@);
            &&& data.at("name"@) == json::JsonView::Text(title) && title.len() > 0 ==> tags.title
                == Some(title)
            &&& data.at("name"@) == json::JsonView::Text(Seq::empty()) || !(data.at(
                "name"@,
            ) is Text) ==> tags.title == Some(id)
            &&& about.at("name"@) == json::JsonView::Text(album) ==> tags.album == Some(album)
            &&& !(about.at("name"@) is Text) ==> tags.album is None
            &&& about.at("release_date"@) == json::JsonView::Text(date) ==> tags.date == Some(date)
            &&& !(about.at("release_date"@) is Text) ==> tags.date is None
            &&& data.at("track_number"@) == json::JsonView::Number(Some(track)) ==> tags.track
                == Some(text::decimal(track as nat))
            &&& !(data.at("track_number"@) is Number) ==> tags.track is None
            &&& data.at("disc_number"@) == json::JsonView::Number(Some(disc)) ==> tags.disc == Some(
                text::decimal(disc as nat),
            )
            &&& !(data.at("disc_number"@) is Number) ==> tags.disc is None
            &&& tags.artist == names_of(data.at("artists"@))
        }),
{
}

/// The artists of a track that all have names are all in its tag, in their order,
/// with a comma and a space between each two.
pub proof fn law_every_artist_is_in_the_tag(
    id: Seq<char>,
    data: json::JsonView,
    artists: Seq<json::JsonView>,
    called: Seq<Seq<char>>,
)
    requires
        data.at("artists"@) == json::JsonView::Array(artists),
        artists.len() > 0,
        called.len() == artists.len(),
        forall|i: int|
            0 <= i < artists.len() ==> (#[trigger] artists[i]).at("name"@) == json::JsonView::Text(
                called[i],
            ),
    ensures
        web_tags(id, data).artist == Some(text::joined(called, seq![',', ' '])),
{
    assert forall|i: int| 0 <= i < artists.len() implies (#[trigger] artists[i]).at(
        "name"@,
    ).text() is Some by {}
    law_every_named_item_is_listed(artists);
    assert forall|i: int| 0 <= i < called.len() implies names_in(artists)[i] == called[i] by {
        assert(artists[i].at("name"@) == json::JsonView::Text(called[i]));
    }
    assert(names_in(artists) =~= called);
    reveal_strlit(", ");
    assert(", "@ =~= seq![',', ' ']);
}

/// The cover is where the first image of the album says.
pub proof fn law_cover_is_the_first_image(
    data: json::JsonView,
    images: Seq<json::JsonView>,
    url: Seq<char>,
)
    requires
        data.at("album"@).at("images"@) == json::JsonView::Array(images),
    ensures
        images.len() > 0 && images[0].at("url"@) == json::JsonView::Text(url) ==> cover_url(data)
            == Some(url),
        images.len() == 0 ==> cover_url(data) is None,
        cover_url(data) is Some ==> images.len() > 0 && images[0].at("url"@)
            == json::JsonView::Text(cover_url(data)->0),
{
}

/// A response holds data exactly where its status is one of the two hundreds. The
/// status for too many requests tells how long to wait, if the server says so in
/// whole seconds; every other is told as it is.
pub proof fn law_status_of_a_response(status: u16, retry_after: Option<Seq<char>>, seconds: u64)
    ensures
        response_outcome(status, retry_after) is Ok <==> 200 <= status <= 299,
        status != 429 && !(200 <= status <= 299) ==> response_outcome(status, retry_after) == Err::<
            (),
            FetchError,
        >(FetchError::Http(status)),
        response_outcome(429, Some(text::decimal(seconds as nat))) == Err::<(), FetchError>(
            FetchError::RateLimited(Some(seconds)),
        ),
        response_outcome(429, None) == Err::<(), FetchError>(FetchError::RateLimited(None)),
{
    text::law_decimal_reads_back(seconds as nat, u64::MAX as nat);
}

/// Covers are downloaded only from Spotify's image host and only over a secure
/// connection, and may take at most eight mebibytes.
pub proof fn law_where_covers_come_from(link: links::LinkView)
    ensures
        on_image_host(link) <==> link.host == Some("i.scdn.co"@) && link.scheme == "https"@,
        ARTWORK_LIMIT == 8 * 1024 * 1024,
{
}

/// A cover is a JPEG or a PNG file by its first bytes.
pub proof fn law_signatures_of_covers(bytes: Seq<u8>)
    ensures
        jpeg_signature().is_prefix_of(bytes) <==> bytes.len() >= 2 && bytes[0] == 255 && bytes[1]
            == 216,
        png_signature().is_prefix_of(bytes) <==> bytes.len() >= 8 && bytes[0] == 137 && bytes[1]
            == 'P' as u8 && bytes[2] == 'N' as u8 && bytes[3] == 'G' as u8 && bytes[4] == 13
            && bytes[5] == 10 && bytes[6] == 26 && bytes[7] == 10,
{
    let jpeg = jpeg_signature();
    let png = png_signature();
    if bytes.len() >= 2 {
        assert(bytes.take(2) =~= jpeg <==> bytes[0] == 255 && bytes[1] == 216) by {
            let front = bytes.take(2);
            assert(front[0] == bytes[0] && front[1] == bytes[1]);
            assert(jpeg[0] == 255 && jpeg[1] == 216);
        }
    }
    if bytes.len() >= 8 {
        let front = bytes.take(8);
        assert(front[0] == bytes[0] && front[1] == bytes[1] && front[2] == bytes[2] && front[3]
            == bytes[3] && front[4] == bytes[4] && front[5] == bytes[5] && front[6] == bytes[6]
            && front[7] == bytes[7]);
        assert(png[0] == 137 && png[1] == 80 && png[2] == 78 && png[3] == 71 && png[4] == 13
            && png[5] == 10 && png[6] == 26 && png[7] == 10);
        assert(front =~= png <==> bytes[0] == 137 && bytes[1] == 80 && bytes[2] == 78 && bytes[3]
            == 71 && bytes[4] == 13 && bytes[5] == 10 && bytes[6] == 26 && bytes[7] == 10);
    }
}

/// A text that is neither a track URI nor a secure link is taken for an identifier,
/// and only for that.
pub proof fn law_other_texts_are_identifiers(input: Seq<char>)
    ensures
        ({
            let content = text::trim_white(input);
            !"spotify:track:"@.is_prefix_of(content) && !"https://"@.is_prefix_of(content)
                ==> track_id_of(input) == if spotify_dbus::valid_id(content) {
                Ok::<Seq<char>, TrackIdFailure>(content)
            } else {
                Err(TrackIdFailure::InvalidId)
            }
        }),
{
}

/// Without any data a track has its identifier for a title, and no other tag.
pub proof fn law_tags_without_data(id: Seq<char>)
    ensures
        fallback_tags(id).title == Some(id),
        fallback_tags(id).artist is None,
        fallback_tags(id).album is None,
        fallback_tags(id).date is None,
        fallback_tags(id).track is None,
        fallback_tags(id).disc is None,
{
}

} // verus!
