//! The tracks of an album or a playlist.
use crate::codec;
use crate::json;
use crate::json::Json;
use crate::links;
use crate::pattern;
use crate::text;
use vstd::prelude::*;

verus! {

// ---------------------------------------------------------------------------
// Albums and playlists
// ---------------------------------------------------------------------------

#[derive(Clone, Copy, Debug, PartialEq, Eq, Structural)]
pub enum CollectionKind {
    Album,
    Playlist,
}

/// An album or a playlist.
#[derive(Debug)]
pub struct Collection {
    pub kind: CollectionKind,
    pub id: String,
}

/// Why a link names no collection.
#[derive(Debug)]
pub enum ExtractError {
    /// It is no URL, in the words of the parser.
    InvalidUrl(String),
    /// It is a link to somewhere else.
    WrongHost,
    /// It is neither an album nor a playlist.
    Unsupported,
}

impl ExtractError {
    /// The words of the error.
    pub open spec fn words(self) -> Seq<char> {
        match self {
            ExtractError::InvalidUrl(_) => "Invalid URL format"@,
            ExtractError::WrongHost => "Must be an open.spotify.com URL"@,
            ExtractError::Unsupported => "Unsupported URL. Must be an album or playlist."@,
        }
    }

    /// The error in words.
    pub fn message(&self) -> (r: String)
        ensures
            r@ == self.words(),
    {
        match self {
            ExtractError::InvalidUrl(_) => "Invalid URL format".to_owned(),
            ExtractError::WrongHost => "Must be an open.spotify.com URL".to_owned(),
            ExtractError::Unsupported => "Unsupported URL. Must be an album or playlist.".to_owned(),
        }
    }
}

/// The kind of collection that a word in a path stands for.
pub open spec fn kind_named(word: Seq<char>) -> Option<CollectionKind> {
    if word == "album"@ {
        Some(CollectionKind::Album)
    } else if word == "playlist"@ {
        Some(CollectionKind::Playlist)
    } else {
        None
    }
}

/// The collection that a path names: its kind and its identifier, below a
/// language or not. Slashes at either end do not count.
pub open spec fn collection_in(path: Seq<char>) -> Option<(CollectionKind, Seq<char>)> {
    let parts = text::split(
        text::Charset::One('/'),
        text::trimmed(text::Charset::One('/'), path),
    );
    if parts.len() == 2 && kind_named(parts[0]) is Some {
        Some((kind_named(parts[0])->0, parts[1]))
    } else if parts.len() == 3 && kind_named(parts[1]) is Some {
        Some((kind_named(parts[1])->0, parts[2]))
    } else {
        None
    }
}

/// A link to the collection with this kind and identifier.
pub open spec fn links_to(link: links::LinkView, kind: CollectionKind, id: Seq<char>) -> bool {
    link.host == Some("open.spotify.com"@) && collection_in(link.path) == Some((kind, id))
}

fn read_kind(word: &[char]) -> (r: Option<CollectionKind>)
    ensures
        r == kind_named(word@),
{
    let word = text::string_of(word);
    if text::same(word.as_str(), "album") {
        Some(CollectionKind::Album)
    } else if text::same(word.as_str(), "playlist") {
        Some(CollectionKind::Playlist)
    } else {
        None
    }
}

/// The collection that a parsed link names.
pub fn collection_of_link(link: &links::Link) -> (r: Result<Collection, ExtractError>)
    ensures
        match r {
            Ok(c) => links_to(link@, c.kind, c.id@),
            Err(e) => if link@.host != Some("open.spotify.com"@) {
                e == ExtractError::WrongHost
            } else {
                collection_in(link@.path) is None && e == ExtractError::Unsupported
            },
        },
{
    let hosted = match &link.host {
        Some(host) => text::same(host.as_str(), "open.spotify.com"),
        None => false,
    };
    if !hosted {
        return Err(ExtractError::WrongHost);
    }
    let cs = text::chars_of(link.path.as_str());
    let inner = text::trim(text::Charset::One('/'), cs.as_slice());
    let parts = text::split_at(text::Charset::One('/'), inner);
    let ghost all = text::runs(parts@);
    if parts.len() == 2 {
        assert(all[0] == parts@[0]@ && all[1] == parts@[1]@);
        if let Some(kind) = read_kind(parts[0].as_slice()) {
            return Ok(Collection { kind, id: text::string_of(parts[1].as_slice()) });
        }
    } else if parts.len() == 3 {
        assert(all[1] == parts@[1]@ && all[2] == parts@[2]@);
        if let Some(kind) = read_kind(parts[1].as_slice()) {
            return Ok(Collection { kind, id: text::string_of(parts[2].as_slice()) });
        }
    }
    Err(ExtractError::Unsupported)
}

/// The collection that `url` names.
pub fn collection_of(url: &str) -> (r: Result<Collection, ExtractError>)
    ensures
        match links::link_of(url@) {
            Ok(link) => match r {
                Ok(c) => links_to(link, c.kind, c.id@),
                Err(e) => if link.host != Some("open.spotify.com"@) {
                    e == ExtractError::WrongHost
                } else {
                    collection_in(link.path) is None && e == ExtractError::Unsupported
                },
            },
            Err(words) => r is Err && r->Err_0 is InvalidUrl && r->Err_0->InvalidUrl_0@ == words,
        },
{
    match links::parse_link(url) {
        Ok(link) => collection_of_link(&link),
        Err(words) => Err(ExtractError::InvalidUrl(words)),
    }
}

/// The name of a kind of collection in the Web API.
pub open spec fn api_name(kind: CollectionKind) -> Seq<char> {
    match kind {
        CollectionKind::Album => "albums"@,
        CollectionKind::Playlist => "playlists"@,
    }
}

impl Collection {
    /// Where the Web API keeps the first tracks of the collection.
    pub fn first_page(&self) -> (r: String)
        ensures
            r@ == "https://api.spotify.com/v1/"@ + api_name(self.kind) + "/"@ + self.id@
                + "/tracks?limit=50"@,
    {
        let name = match self.kind {
            CollectionKind::Album => "albums",
            CollectionKind::Playlist => "playlists",
        };
        "https://api.spotify.com/v1/".to_owned().concat(name).concat("/").concat(
            self.id.as_str(),
        ).concat("/tracks?limit=50")
    }
}

// ---------------------------------------------------------------------------
// Pages of the Web API
// ---------------------------------------------------------------------------

/// The track in an item of a page: the items of a playlist may hold it in a
/// field.
pub open spec fn track_in(kind: CollectionKind, item: json::JsonView) -> json::JsonView {
    if kind == CollectionKind::Playlist && item.get("track"@) is Some {
        item.at("track"@)
    } else {
        item
    }
}

/// A text, or another where there is none.
pub open spec fn or_else(value: Option<Seq<char>>, other: Seq<char>) -> Seq<char> {
    match value {
        Some(value) => value,
        None => other,
    }
}

/// The name of the first artist of a track.
pub open spec fn first_artist(track: json::JsonView) -> Option<Seq<char>> {
    match track.at("artists"@).array() {
        Some(artists) => if artists.len() > 0 {
            artists[0].at("name"@).text()
        } else {
            None
        },
        None => None,
    }
}

/// The line for a track, if it has an identifier.
pub open spec fn track_line(track: json::JsonView) -> Option<Seq<char>> {
    match track.at("id"@).text() {
        Some(id) => Some(
            "spotify:track:"@ + id + "|"@ + or_else(track.at("name"@).text(), "Unknown Track"@)
                + " - "@ + or_else(first_artist(track), "Unknown Artist"@),
        ),
        None => None,
    }
}

/// The lines for the tracks in the items of a page.
pub open spec fn page_lines(kind: CollectionKind, items: Seq<json::JsonView>) -> Seq<Seq<char>>
    decreases items.len(),
{
    if items.len() == 0 {
        Seq::empty()
    } else {
        let before = page_lines(kind, items.drop_last());
        match track_line(track_in(kind, items.last())) {
            Some(line) => before.push(line),
            None => before,
        }
    }
}

/// What one page gives: a line for each track, and where the next page is.
#[derive(Debug)]
pub struct Page {
    pub lines: Vec<String>,
    pub next: Option<String>,
}

fn read_first_artist(track: &Json) -> (r: Option<&String>)
    ensures
        match r {
            Some(name) => first_artist(track@) == Some(name@),
            None => first_artist(track@) is None,
        },
{
    match track.array_at("artists") {
        Some(artists) => {
            if artists.len() > 0 {
                assert(json::documents(artists@)[0] == artists@[0]@);
                artists[0].text_at("name")
            } else {
                None
            }
        },
        None => None,
    }
}

fn text_or<'a>(value: Option<&'a String>, other: &'a str) -> (r: &'a str)
    ensures
        r@ == (match value {
            Some(value) => value@,
            None => other@,
        }),
{
    match value {
        Some(value) => value.as_str(),
        None => other,
    }
}

fn read_track_line(track: &Json) -> (r: Option<String>)
    ensures
        text::option_view(r) == track_line(track@),
{
    match track.text_at("id") {
        Some(id) => {
            let name = text_or(track.text_at("name"), "Unknown Track");
            let artist = text_or(read_first_artist(track), "Unknown Artist");
            Some(
                "spotify:track:".to_owned().concat(id.as_str()).concat("|").concat(name).concat(
                    " - ",
                ).concat(artist),
            )
        },
        None => None,
    }
}

/// What a response of the Web API gives, going by its status, if there was a
/// response, and by its document, if it held one. Without success, or without
/// items, it gives nothing, and the Web API is of no use.
pub fn read_page(kind: CollectionKind, status: Option<u16>, document: Option<&Json>) -> (r: Option<
    Page,
>)
    ensures
        match r {
            Some(page) => {
                &&& status is Some && crate::metadata::success(status->0)
                &&& document is Some
                &&& document->0@.at("items"@).array() is Some
                &&& text::views(page.lines@) == page_lines(
                    kind,
                    document->0@.at("items"@).array()->0,
                )
                &&& text::option_view(page.next) == document->0@.at("next"@).text()
            },
            None => {
                ||| status is None
                ||| !crate::metadata::success(status->0)
                ||| document is None
                ||| document->0@.at("items"@).array() is None
            },
        },
{
    match status {
        Some(status) => {
            if !(200 <= status && status < 300) {
                return None;
            }
        },
        None => {
            return None;
        },
    }
    let document = match document {
        Some(document) => document,
        None => return None,
    };
    let items = match document.array_at("items") {
        Some(items) => items,
        None => return None,
    };
    let ghost all = json::documents(items@);
    let mut lines: Vec<String> = Vec::new();
    assert(all.take(0) =~= Seq::empty());
    assert(text::views(lines@) =~= page_lines(kind, all.take(0)));
    for i in 0..items.len()
        invariant
            all == json::documents(items@),
            text::views(lines@) == page_lines(kind, all.take(i as int)),
    {
        let item = &items[i];
        let ghost next = all.take(i as int + 1);
        assert(next.drop_last() =~= all.take(i as int));
        assert(next.last() == item@);
        let track = if kind == CollectionKind::Playlist {
            match item.get("track") {
                Some(track) => track,
                None => item,
            }
        } else {
            item
        };
        let ghost before = lines@;
        if let Some(line) = read_track_line(track) {
            lines.push(line);
            assert(text::views(lines@) =~= text::views(before).push(line@));
        }
    }
    assert(all.take(all.len() as int) =~= all);
    Some(Page { lines, next: text::copied(document.text_at("next")) })
}

/// What to do next to list the tracks of a collection.
#[derive(Debug)]
pub enum Listing {
    /// Ask the Web API for the page at this address.
    Request(String),
    /// The Web API is of no use: read the web page of the collection.
    Scrape,
    /// All tracks are listed.
    Complete,
}

impl Listing {
    /// The first thing to do: a user who signed in can ask the Web API.
    pub fn begin(collection: &Collection, signed_in: bool) -> (r: Listing)
        ensures
            match r {
                Listing::Request(url) => signed_in && url@ == "https://api.spotify.com/v1/"@
                    + api_name(collection.kind) + "/"@ + collection.id@ + "/tracks?limit=50"@,
                Listing::Scrape => !signed_in,
                Listing::Complete => false,
            },
    {
        if signed_in {
            Listing::Request(collection.first_page())
        } else {
            Listing::Scrape
        }
    }

    /// What to do after a page, if the Web API gave one: ask for the next one, if
    /// there is one.
    pub fn after(page: &Option<Page>) -> (r: Listing)
        ensures
            match (*page, r) {
                (Some(page), Listing::Request(url)) => page.next is Some && url@
                    == page.next->0@,
                (Some(page), Listing::Complete) => page.next is None,
                (None, Listing::Scrape) => true,
                _ => false,
            },
    {
        match page {
            Some(page) => match &page.next {
                Some(url) => Listing::Request(url.clone()),
                None => Listing::Complete,
            },
            None => Listing::Scrape,
        }
    }
}

// ---------------------------------------------------------------------------
// Lists of tracks
// ---------------------------------------------------------------------------

/// The names by identifier that a list of entries gives; a later entry counts.
pub open spec fn named(entries: Seq<(String, String)>) -> Map<Seq<char>, Seq<char>>
    decreases entries.len(),
{
    if entries.len() == 0 {
        Map::empty()
    } else {
        named(entries.drop_last()).insert(entries.last().0@, entries.last().1@)
    }
}

/// No identifier occurs twice.
pub open spec fn distinct(entries: Seq<(String, String)>) -> bool {
    forall|i: int, j: int|
        0 <= i < j < entries.len() ==> (#[trigger] entries[i]).0@ != (#[trigger] entries[j]).0@
}

/// Tracks by identifier, each with a name.
pub struct TrackList {
    entries: Vec<(String, String)>,
}

impl View for TrackList {
    type V = Map<Seq<char>, Seq<char>>;

    closed spec fn view(&self) -> Map<Seq<char>, Seq<char>> {
        named(self.entries@)
    }
}

proof fn lemma_named(entries: Seq<(String, String)>, id: Seq<char>)
    ensures
        named(entries).contains_key(id) <==> exists|i: int|
            0 <= i < entries.len() && (#[trigger] entries[i]).0@ == id,
    decreases entries.len(),
{
    if entries.len() > 0 {
        let before = entries.drop_last();
        lemma_named(before, id);
        if named(before).contains_key(id) {
            let i = choose|i: int| 0 <= i < before.len() && (#[trigger] before[i]).0@ == id;
            assert(entries[i].0@ == id);
        }
        if entries.last().0@ == id {
            assert(entries[entries.len() - 1].0@ == id);
        }
        if exists|i: int| 0 <= i < entries.len() && (#[trigger] entries[i]).0@ == id {
            let i = choose|i: int| 0 <= i < entries.len() && (#[trigger] entries[i]).0@ == id;
            if i < before.len() {
                assert(before[i].0@ == id);
            }
        }
    }
}

proof fn lemma_renamed(entries: Seq<(String, String)>, i: int, entry: (String, String))
    requires
        0 <= i < entries.len(),
        distinct(entries),
        entry.0@ == entries[i].0@,
    ensures
        named(entries.update(i, entry)) == named(entries).insert(entry.0@, entry.1@),
    decreases entries.len(),
{
    let before = entries.drop_last();
    let updated = entries.update(i, entry);
    if i == entries.len() - 1 {
        assert(updated.drop_last() =~= before);
        assert(named(updated) =~= named(entries).insert(entry.0@, entry.1@));
    } else {
        assert(updated.drop_last() =~= before.update(i, entry));
        assert forall|a: int, b: int| 0 <= a < b < before.len() implies (#[trigger] before[a]).0@
            != (#[trigger] before[b]).0@ by {
            assert(entries[a].0@ != entries[b].0@);
        }
        lemma_renamed(before, i, entry);
        assert(entries[i].0@ != entries[entries.len() - 1].0@);
        assert(named(updated) =~= named(entries).insert(entry.0@, entry.1@));
    }
}

impl TrackList {
    /// No identifier occurs twice.
    pub closed spec fn wf(self) -> bool {
        distinct(self.entries@)
    }

    /// An empty list.
    pub fn new() -> (r: TrackList)
        ensures
            r.wf(),
            r@ == Map::<Seq<char>, Seq<char>>::empty(),
    {
        TrackList { entries: Vec::new() }
    }

    fn find(&self, id: &str) -> (r: Option<usize>)
        ensures
            match r {
                Some(i) => i < self.entries@.len() && self.entries@[i as int].0@ == id@,
                None => forall|i: int|
                    0 <= i < self.entries@.len() ==> (#[trigger] self.entries@[i]).0@ != id@,
            },
    {
        for i in 0..self.entries.len()
            invariant
                forall|j: int| 0 <= j < i ==> (#[trigger] self.entries@[j]).0@ != id@,
        {
            if text::same(self.entries[i].0.as_str(), id) {
                return Some(i);
            }
        }
        None
    }

    /// Whether the track `id` is in the list.
    pub fn contains(&self, id: &str) -> (r: bool)
        ensures
            r == self@.contains_key(id@),
    {
        proof {
            lemma_named(self.entries@, id@);
        }
        self.find(id).is_some()
    }

    /// Names the track `id`, whether it is in the list or not.
    pub fn insert(&mut self, id: String, name: String)
        requires
            old(self).wf(),
        ensures
            final(self).wf(),
            final(self)@ == old(self)@.insert(id@, name@),
    {
        match self.find(id.as_str()) {
            Some(i) => {
                let ghost before = self.entries@;
                let entry = (id, name);
                proof {
                    lemma_renamed(before, i as int, entry);
                }
                self.entries.set(i, entry);
                assert(self.entries@ =~= before.update(i as int, entry));
                assert(distinct(self.entries@)) by {
                    assert forall|a: int, b: int| 0 <= a < b < self.entries@.len() implies (
                    #[trigger] self.entries@[a]).0@ != (#[trigger] self.entries@[b]).0@ by {
                        assert(before[a].0@ != before[b].0@);
                    }
                }
            },
            None => {
                let ghost before = self.entries@;
                self.entries.push((id, name));
                assert(self.entries@.drop_last() =~= before);
            },
        }
    }

    /// The lines for the tracks of the list, one for each, in some order.
    pub fn lines(&self) -> (r: Vec<String>)
        requires
            self.wf(),
        ensures
            exists|ids: Seq<Seq<char>>| #[trigger] lists(text::views(r@), self@, ids),
    {
        let mut out: Vec<String> = Vec::new();
        for i in 0..self.entries.len()
            invariant
                out@.len() == i,
                forall|j: int|
                    0 <= j < i ==> (#[trigger] out@[j])@ == line_for(
                        self.entries@[j].0@,
                        self.entries@[j].1@,
                    ),
        {
            let entry = &self.entries[i];
            let line = "spotify:track:".to_owned().concat(entry.0.as_str()).concat("|").concat(
                entry.1.as_str(),
            );
            out.push(line);
        }
        proof {
            lemma_named_values(self.entries@);
            let ids = Seq::new(self.entries@.len(), |i: int| self.entries@[i].0@);
            assert forall|i: int, j: int|
                0 <= i < ids.len() && 0 <= j < ids.len() && i != j implies ids[i] != ids[j] by {
                if i < j {
                    assert(self.entries@[i].0@ != self.entries@[j].0@);
                } else {
                    assert(self.entries@[j].0@ != self.entries@[i].0@);
                }
            }
            assert forall|id: Seq<char>| ids.contains(id) <==> #[trigger] self@.contains_key(id) by {
                lemma_named(self.entries@, id);
                if self@.contains_key(id) {
                    let i = choose|i: int|
                        0 <= i < self.entries@.len() && (#[trigger] self.entries@[i]).0@ == id;
                    assert(ids[i] == id);
                }
                if ids.contains(id) {
                    let i = choose|i: int| 0 <= i < ids.len() && ids[i] == id;
                    assert(self.entries@[i].0@ == id);
                }
            }
            assert forall|i: int| 0 <= i < ids.len() implies #[trigger] text::views(out@)[i]
                == line_for(ids[i], self@[ids[i]]) by {
                assert(text::views(out@)[i] == out@[i]@);
                assert(self@[self.entries@[i].0@] == self.entries@[i].1@);
            }
            assert(lists(text::views(out@), self@, ids));
        }
        out
    }
}

/// The lines are those of the tracks with these identifiers, one after the other,
/// and these are the identifiers of all the tracks, each once.
pub open spec fn lists(
    lines: Seq<Seq<char>>,
    tracks: Map<Seq<char>, Seq<char>>,
    ids: Seq<Seq<char>>,
) -> bool {
    &&& ids.no_duplicates()
    &&& forall|id: Seq<char>| ids.contains(id) <==> #[trigger] tracks.contains_key(id)
    &&& lines.len() == ids.len()
    &&& forall|i: int|
        0 <= i < lines.len() ==> #[trigger] lines[i] == line_for(ids[i], tracks[ids[i]])
}

/// The line for a track.
pub open spec fn line_for(id: Seq<char>, name: Seq<char>) -> Seq<char> {
    "spotify:track:"@ + id + "|"@ + name
}

proof fn lemma_named_values(entries: Seq<(String, String)>)
    requires
        distinct(entries),
    ensures
        forall|i: int|
            0 <= i < entries.len() ==> named(entries).contains_key((#[trigger] entries[i]).0@)
                && named(entries)[entries[i].0@] == entries[i].1@,
        named(entries).dom().finite(),
        named(entries).dom().len() == entries.len(),
    decreases entries.len(),
{
    if entries.len() == 0 {
        assert(named(entries).dom() =~= Set::empty());
    } else {
        let before = entries.drop_last();
        assert forall|a: int, b: int| 0 <= a < b < before.len() implies (#[trigger] before[a]).0@
            != (#[trigger] before[b]).0@ by {
            assert(entries[a].0@ != entries[b].0@);
        }
        lemma_named_values(before);
        lemma_named(before, entries.last().0@);
        assert forall|i: int| 0 <= i < entries.len() implies named(entries).contains_key(
            (#[trigger] entries[i]).0@,
        ) && named(entries)[entries[i].0@] == entries[i].1@ by {
            if i < before.len() {
                assert(before[i] == entries[i]);
                assert(entries[i].0@ != entries[entries.len() - 1].0@);
            }
        }
        if named(before).contains_key(entries.last().0@) {
            let i = choose|i: int|
                0 <= i < before.len() && (#[trigger] before[i]).0@ == entries.last().0@;
            assert(entries[i].0@ != entries[entries.len() - 1].0@);
        }
        assert(named(entries).dom() =~= named(before).dom().insert(entries.last().0@));
    }
}

// ---------------------------------------------------------------------------
// Tracks in a document
// ---------------------------------------------------------------------------

/// The identifier of the track that an object describes: what follows
/// `spotify:track:` in its URI, or, without a URI, an identifier of twenty-two
/// bytes.
pub open spec fn object_id(object: json::JsonView) -> Option<Seq<char>> {
    match object.at("uri"@).text() {
        Some(uri) => text::after_prefix(uri, "spotify:track:"@),
        None => match object.at("id"@).text() {
            Some(id) => if text::size(id) == 22 {
                Some(id)
            } else {
                None
            },
            None => None,
        },
    }
}

/// The tracks known, and the one that an object describes by identifier and
/// name.
pub open spec fn with_object(
    known: Map<Seq<char>, Seq<char>>,
    object: json::JsonView,
) -> Map<Seq<char>, Seq<char>> {
    match (object_id(object), object.at("name"@).text()) {
        (Some(id), Some(name)) => known.insert(id, name),
        _ => known,
    }
}

/// The tracks known, and those that a document describes anywhere in it: an
/// object itself, then what is in it, in order.
pub open spec fn with_document(
    known: Map<Seq<char>, Seq<char>>,
    document: json::JsonView,
) -> Map<Seq<char>, Seq<char>>
    decreases document,
{
    match document {
        json::JsonView::Object(fields) => with_fields(with_object(known, document), fields),
        json::JsonView::Array(items) => with_items(known, items),
        _ => known,
    }
}

/// The tracks known, and those in the values of fields.
pub open spec fn with_fields(
    known: Map<Seq<char>, Seq<char>>,
    fields: Seq<(Seq<char>, json::JsonView)>,
) -> Map<Seq<char>, Seq<char>>
    decreases fields,
{
    if fields.len() == 0 {
        known
    } else {
        with_document(with_fields(known, fields.drop_last()), fields[fields.len() - 1].1)
    }
}

/// The tracks known, and those in the items of an array.
pub open spec fn with_items(
    known: Map<Seq<char>, Seq<char>>,
    items: Seq<json::JsonView>,
) -> Map<Seq<char>, Seq<char>>
    decreases items,
{
    if items.len() == 0 {
        known
    } else {
        with_document(with_items(known, items.drop_last()), items[items.len() - 1])
    }
}

fn read_object_id(object: &Json) -> (r: Option<String>)
    ensures
        text::option_view(r) == object_id(object@),
{
    match object.text_at("uri") {
        Some(uri) => {
            let cs = text::chars_of(uri.as_str());
            match text::strip_prefix(cs.as_slice(), "spotify:track:") {
                Some(id) => Some(text::string_of(id)),
                None => None,
            }
        },
        None => match object.text_at("id") {
            Some(id) => {
                if text::size_of(id.as_str()) == 22 {
                    Some(id.clone())
                } else {
                    None
                }
            },
            None => None,
        },
    }
}

/// Adds the tracks that a document describes.
pub fn extract_from_json(document: &Json, tracks: &mut TrackList)
    requires
        old(tracks).wf(),
    ensures
        final(tracks).wf(),
        final(tracks)@ == with_document(old(tracks)@, document@),
    decreases document,
{
    let ghost start = tracks@;
    match document {
        Json::Object(fields) => {
            let ghost all = document@->Object_0;
            if let Some(id) = read_object_id(document) {
                if let Some(name) = document.text_at("name") {
                    tracks.insert(id, name.clone());
                }
            }
            let ghost entered = tracks@;
            assert(entered == with_object(start, document@));
            assert(all.take(0) =~= Seq::empty());
            for i in 0..fields.len()
                invariant
                    document == Json::Object(*fields),
                    document@ == json::JsonView::Object(all),
                    all.len() == fields@.len(),
                    forall|j: int|
                        0 <= j < fields@.len() ==> #[trigger] all[j] == (
                            fields@[j].0@,
                            fields@[j].1@,
                        ),
                    tracks.wf(),
                    tracks@ == with_fields(entered, all.take(i as int)),
            {
                let ghost next = all.take(i as int + 1);
                assert(next.drop_last() =~= all.take(i as int));
                assert(next[next.len() - 1] == all[i as int]);
                extract_from_json(&fields[i].1, tracks);
            }
            assert(all.take(all.len() as int) =~= all);
        },
        Json::Array(items) => {
            let ghost all = document@->Array_0;
            assert(all.take(0) =~= Seq::empty());
            for i in 0..items.len()
                invariant
                    document == Json::Array(*items),
                    document@ == json::JsonView::Array(all),
                    all.len() == items@.len(),
                    forall|j: int| 0 <= j < items@.len() ==> #[trigger] all[j] == items@[j]@,
                    tracks.wf(),
                    tracks@ == with_items(start, all.take(i as int)),
            {
                let ghost next = all.take(i as int + 1);
                assert(next.drop_last() =~= all.take(i as int));
                assert(next[next.len() - 1] == all[i as int]);
                extract_from_json(&items[i], tracks);
            }
            assert(all.take(all.len() as int) =~= all);
        },
        _ => {},
    }
}

// ---------------------------------------------------------------------------
// Tracks in a web page
// ---------------------------------------------------------------------------

/// A base64 text with the padding that makes its size a multiple of four.
pub open spec fn padded(s: Seq<char>) -> Seq<char> {
    s + Seq::new(((4 - text::size(s) % 4) % 4) as nat, |i: int| '=')
}

/// What the group `n` of a match holds.
pub open spec fn group(found: Seq<Option<Seq<char>>>, n: int) -> Option<Seq<char>> {
    if n < found.len() {
        found[n]
    } else {
        None
    }
}

/// The JSON document that a match of the document pattern holds: its group in
/// base64, read as UTF-8.
pub open spec fn embedded(found: Seq<Option<Seq<char>>>) -> Option<json::JsonView> {
    match group(found, 1) {
        Some(data) => match codec::base64_decoded(padded("eyJ"@ + data)) {
            Some(bytes) => json::document_of_text(codec::utf8_lossy(bytes)),
            None => None,
        },
        None => None,
    }
}

/// The tracks known, and those in the documents that matches hold.
pub open spec fn with_embedded(
    known: Map<Seq<char>, Seq<char>>,
    found: Seq<Seq<Option<Seq<char>>>>,
) -> Map<Seq<char>, Seq<char>>
    decreases found.len(),
{
    if found.len() == 0 {
        known
    } else {
        let before = with_embedded(known, found.drop_last());
        match embedded(found.last()) {
            Some(document) => with_document(before, document),
            None => before,
        }
    }
}

/// The identifier that a match of the track pattern holds, in either form.
pub open spec fn mentioned(found: Seq<Option<Seq<char>>>) -> Option<Seq<char>> {
    match group(found, 1) {
        Some(id) => Some(id),
        None => group(found, 2),
    }
}

/// The tracks known, and those that matches mention, which have no name where
/// they are not known.
pub open spec fn with_mentioned(
    known: Map<Seq<char>, Seq<char>>,
    found: Seq<Seq<Option<Seq<char>>>>,
) -> Map<Seq<char>, Seq<char>>
    decreases found.len(),
{
    if found.len() == 0 {
        known
    } else {
        let before = with_mentioned(known, found.drop_last());
        match mentioned(found.last()) {
            Some(id) => if before.contains_key(id) {
                before
            } else {
                before.insert(id, "Unknown Track"@)
            },
            None => before,
        }
    }
}

/// The tracks that a page names, given the matches of the two patterns in it.
pub open spec fn tracks_of(
    documents: Seq<Seq<Option<Seq<char>>>>,
    mentions: Seq<Seq<Option<Seq<char>>>>,
) -> Map<Seq<char>, Seq<char>> {
    with_mentioned(with_embedded(Map::empty(), documents), mentions)
}

fn pad(data: &str) -> (r: String)
    ensures
        r@ == padded(data@),
{
    let size: usize = text::size_of(data);
    let count: usize = (4 - size % 4) % 4;
    let mut out = data.to_owned();
    assert(out@ =~= data@ + Seq::new(0, |j: int| '='));
    for i in 0..count
        invariant
            out@ == data@ + Seq::new(i as nat, |j: int| '='),
    {
        out.push('=');
        assert(out@ =~= data@ + Seq::new((i + 1) as nat, |j: int| '='));
    }
    out
}

fn read_group<'a>(found: &'a Vec<Option<String>>, n: usize) -> (r: Option<&'a String>)
    ensures
        match r {
            Some(s) => group(pattern::groups_view(found@), n as int) == Some(s@),
            None => group(pattern::groups_view(found@), n as int) is None,
        },
{
    if n < found.len() {
        assert(pattern::groups_view(found@)[n as int] == text::option_view(found@[n as int]));
        found[n].as_ref()
    } else {
        None
    }
}

fn read_embedded(found: &Vec<Option<String>>) -> (r: Option<Json>)
    ensures
        match r {
            Some(document) => embedded(pattern::groups_view(found@)) == Some(document@),
            None => embedded(pattern::groups_view(found@)) is None,
        },
{
    match read_group(found, 1) {
        Some(data) => {
            let whole = "eyJ".to_owned().concat(data.as_str());
            let whole = pad(whole.as_str());
            match codec::decode_standard(whole.as_str()) {
                Some(bytes) => {
                    let words = codec::read_lossy(bytes.as_slice());
                    json::parse_text(words.as_str())
                },
                None => None,
            }
        },
        None => None,
    }
}

/// Adds the tracks in the documents that matches of the document pattern hold.
pub fn add_embedded(found: &Vec<Vec<Option<String>>>, tracks: &mut TrackList)
    requires
        old(tracks).wf(),
    ensures
        final(tracks).wf(),
        final(tracks)@ == with_embedded(old(tracks)@, pattern::match_views(found@)),
{
    let ghost start = tracks@;
    let ghost all = pattern::match_views(found@);
    assert(all.take(0) =~= Seq::empty());
    for i in 0..found.len()
        invariant
            all == pattern::match_views(found@),
            tracks.wf(),
            tracks@ == with_embedded(start, all.take(i as int)),
    {
        let ghost next = all.take(i as int + 1);
        assert(next.drop_last() =~= all.take(i as int));
        assert(next.last() == pattern::groups_view(found@[i as int]@));
        if let Some(document) = read_embedded(&found[i]) {
            extract_from_json(&document, tracks);
        }
    }
    assert(all.take(all.len() as int) =~= all);
}

/// Adds the tracks that matches of the track pattern mention.
pub fn add_mentioned(found: &Vec<Vec<Option<String>>>, tracks: &mut TrackList)
    requires
        old(tracks).wf(),
    ensures
        final(tracks).wf(),
        final(tracks)@ == with_mentioned(old(tracks)@, pattern::match_views(found@)),
{
    let ghost start = tracks@;
    let ghost all = pattern::match_views(found@);
    assert(all.take(0) =~= Seq::empty());
    for i in 0..found.len()
        invariant
            all == pattern::match_views(found@),
            tracks.wf(),
            tracks@ == with_mentioned(start, all.take(i as int)),
    {
        let ghost next = all.take(i as int + 1);
        assert(next.drop_last() =~= all.take(i as int));
        assert(next.last() == pattern::groups_view(found@[i as int]@));
        let id = match read_group(&found[i], 1) {
            Some(id) => Some(id),
            None => read_group(&found[i], 2),
        };
        if let Some(id) = id {
            if !tracks.contains(id.as_str()) {
                tracks.insert(id.clone(), "Unknown Track".to_owned());
            }
        }
    }
    assert(all.take(all.len() as int) =~= all);
}

/// The tracks that a web page names: those in the JSON documents that it holds
/// in base64, and those that it mentions.
pub fn extract_tracks(page: &str) -> (r: TrackList)
    ensures
        r.wf(),
        pattern::matches_of(pattern::DOCUMENT_PATTERN@, page@) is Some,
        pattern::matches_of(pattern::TRACK_PATTERN@, page@) is Some,
        r@ == tracks_of(
            pattern::matches_of(pattern::DOCUMENT_PATTERN@, page@)->0,
            pattern::matches_of(pattern::TRACK_PATTERN@, page@)->0,
        ),
{
    let mut tracks = TrackList::new();
    if let Some(documents) = pattern::find_all(pattern::DOCUMENT_PATTERN, page) {
        add_embedded(&documents, &mut tracks);
    }
    if let Some(mentions) = pattern::find_all(pattern::TRACK_PATTERN, page) {
        add_mentioned(&mentions, &mut tracks);
    }
    tracks
}

// ---------------------------------------------------------------------------
// Laws
// ---------------------------------------------------------------------------

/// A track that a page merely mentions is listed, and takes away nothing of
/// what is known: a name that was found stays, and every track that is not
/// mentioned was known before.
pub proof fn law_mention_keeps_names(
    known: Map<Seq<char>, Seq<char>>,
    found: Seq<Seq<Option<Seq<char>>>>,
)
    ensures
        forall|id: Seq<char>| #[trigger]
            known.contains_key(id) ==> with_mentioned(known, found).contains_key(id)
                && with_mentioned(known, found)[id] == known[id],
        forall|i: int|
            0 <= i < found.len() && mentioned(#[trigger] found[i]) is Some ==> with_mentioned(
                known,
                found,
            ).contains_key(mentioned(found[i])->0),
        forall|id: Seq<char>| #[trigger]
            with_mentioned(known, found).contains_key(id) && !known.contains_key(id)
                ==> with_mentioned(known, found)[id] == "Unknown Track"@ && exists|i: int|
                0 <= i < found.len() && mentioned(#[trigger] found[i]) == Some(id),
    decreases found.len(),
{
    if found.len() > 0 {
        let before = found.drop_last();
        let m = with_mentioned(known, before);
        let n = with_mentioned(known, found);
        law_mention_keeps_names(known, before);
        assert forall|id: Seq<char>| #[trigger] known.contains_key(id) implies n.contains_key(id)
            && n[id] == known[id] by {
            assert(m.contains_key(id));
        }
        assert forall|i: int|
            0 <= i < found.len() && mentioned(#[trigger] found[i]) is Some implies n.contains_key(
            mentioned(found[i])->0,
        ) by {
            if i < before.len() {
                assert(before[i] == found[i]);
                assert(m.contains_key(mentioned(before[i])->0));
            }
        }
        assert forall|id: Seq<char>| #[trigger]
            n.contains_key(id) && !known.contains_key(id) implies n[id] == "Unknown Track"@
            && exists|i: int| 0 <= i < found.len() && mentioned(#[trigger] found[i]) == Some(id) by {
            if m.contains_key(id) {
                let i = choose|i: int|
                    0 <= i < before.len() && mentioned(#[trigger] before[i]) == Some(id);
                assert(mentioned(found[i]) == Some(id));
            } else {
                assert(mentioned(found[found.len() - 1]) == Some(id));
            }
        }
    }
}

/// Reading a document never drops a track that is known.
pub proof fn law_document_keeps_tracks(
    known: Map<Seq<char>, Seq<char>>,
    document: json::JsonView,
    id: Seq<char>,
)
    requires
        known.contains_key(id),
    ensures
        with_document(known, document).contains_key(id),
    decreases document,
{
    match document {
        json::JsonView::Object(fields) => {
            lemma_fields_keep(with_object(known, document), fields, id);
        },
        json::JsonView::Array(items) => {
            lemma_items_keep(known, items, id);
        },
        _ => {},
    }
}

proof fn lemma_fields_keep(
    known: Map<Seq<char>, Seq<char>>,
    fields: Seq<(Seq<char>, json::JsonView)>,
    id: Seq<char>,
)
    requires
        known.contains_key(id),
    ensures
        with_fields(known, fields).contains_key(id),
    decreases fields,
{
    if fields.len() > 0 {
        lemma_fields_keep(known, fields.drop_last(), id);
        law_document_keeps_tracks(
            with_fields(known, fields.drop_last()),
            fields[fields.len() - 1].1,
            id,
        );
    }
}

proof fn lemma_items_keep(
    known: Map<Seq<char>, Seq<char>>,
    items: Seq<json::JsonView>,
    id: Seq<char>,
)
    requires
        known.contains_key(id),
    ensures
        with_items(known, items).contains_key(id),
    decreases items,
{
    if items.len() > 0 {
        lemma_items_keep(known, items.drop_last(), id);
        law_document_keeps_tracks(
            with_items(known, items.drop_last()),
            items[items.len() - 1],
            id,
        );
    }
}

/// Padding makes the size a multiple of four by adding at most three equals signs.
pub proof fn law_padding(s: Seq<char>)
    ensures
        text::size(padded(s)) % 4 == 0,
        s.is_prefix_of(padded(s)),
        padded(s).len() <= s.len() + 3,
        forall|i: int| s.len() <= i < padded(s).len() ==> #[trigger] padded(s)[i] == '=',
{
    let n = ((4 - text::size(s) % 4) % 4) as nat;
    let tail = Seq::new(n, |i: int| '=');
    text::lemma_size_concat(s, tail);
    text::lemma_size_ascii(tail);
}

// ---------------------------------------------------------------------------
// Laws of the tracks in a document
// ---------------------------------------------------------------------------

/// What stands one level below a value: the value of its field `i`, or its item
/// `i`.
pub open spec fn child(document: json::JsonView, i: int) -> Option<json::JsonView> {
    match document {
        json::JsonView::Object(fields) => if 0 <= i < fields.len() {
            Some(fields[i].1)
        } else {
            None
        },
        json::JsonView::Array(items) => if 0 <= i < items.len() {
            Some(items[i])
        } else {
            None
        },
        _ => None,
    }
}

/// What stands at the end of a path into a document; each step of the path goes
/// into a field or an item by its number.
pub open spec fn below(document: json::JsonView, path: Seq<int>) -> Option<json::JsonView>
    decreases path.len(),
{
    if path.len() == 0 {
        Some(document)
    } else {
        match child(document, path[0]) {
            Some(inner) => below(inner, path.drop_first()),
            None => None,
        }
    }
}

/// A value has the identifier of a track and a name: its URI is `spotify:track:`
/// and the identifier, or it has no URI but an identifier of twenty-two bytes.
pub open spec fn describes(object: json::JsonView, id: Seq<char>, name: Seq<char>) -> bool {
    &&& object.at("name"@) == json::JsonView::Text(name)
    &&& {
        ||| object.at("uri"@) == json::JsonView::Text("spotify:track:"@ + id)
        ||| {
            &&& !(object.at("uri"@) is Text)
            &&& object.at("id"@) == json::JsonView::Text(id)
            &&& text::size(id) == 22
        }
    }
}

/// At the end of the path stands something with that identifier and that name.
pub open spec fn described_at(
    document: json::JsonView,
    path: Seq<int>,
    id: Seq<char>,
    name: Seq<char>,
) -> bool {
    match below(document, path) {
        Some(object) => describes(object, id, name),
        None => false,
    }
}

/// Somewhere in the document stands something with that identifier and a name.
pub open spec fn described(document: json::JsonView, id: Seq<char>) -> bool {
    exists|path: Seq<int>, name: Seq<char>| #[trigger] described_at(document, path, id, name)
}

/// Two lists hold the same of a track.
spec fn same_track(
    a: Map<Seq<char>, Seq<char>>,
    b: Map<Seq<char>, Seq<char>>,
    id: Seq<char>,
) -> bool {
    &&& a.contains_key(id) <==> b.contains_key(id)
    &&& a.contains_key(id) ==> a[id] == b[id]
}

proof fn lemma_object_describes(object: json::JsonView, id: Seq<char>, name: Seq<char>)
    ensures
        describes(object, id, name) <==> object_id(object) == Some(id) && object.at(
            "name"@,
        ).text() == Some(name),
{
    let prefix = "spotify:track:"@;
    if let json::JsonView::Text(uri) = object.at("uri"@) {
        if uri == prefix + id {
            assert(uri.subrange(0, prefix.len() as int) =~= prefix);
            assert(uri.subrange(prefix.len() as int, uri.len() as int) =~= id);
            assert(prefix.is_prefix_of(uri));
        }
        if object_id(object) == Some(id) {
            assert(uri =~= prefix + id);
        }
    }
}

proof fn lemma_step_into(document: json::JsonView, i: int, path: Seq<int>)
    requires
        child(document, i) is Some,
    ensures
        below(document, seq![i] + path) == below(child(document, i)->0, path),
{
    assert((seq![i] + path).drop_first() =~= path);
}

/// What is described in a document is described by the document itself or below
/// one of its items or fields.
proof fn lemma_described_where(document: json::JsonView, id: Seq<char>)
    requires
        described(document, id),
    ensures
        (exists|name: Seq<char>| #[trigger] describes(document, id, name)) || exists|i: int|
            (#[trigger] child(document, i)) is Some && described(child(document, i)->0, id),
{
    let (path, name) = choose|path: Seq<int>, name: Seq<char>|
        #[trigger] described_at(document, path, id, name);
    if path.len() == 0 {
        assert(describes(document, id, name));
    } else {
        let inner = child(document, path[0])->0;
        assert(described_at(inner, path.drop_first(), id, name));
    }
}

/// What a document leads to for one track depends on what was known of that track
/// only, and on nothing at all where the document describes the track.
proof fn lemma_document_settles(
    a: Map<Seq<char>, Seq<char>>,
    b: Map<Seq<char>, Seq<char>>,
    document: json::JsonView,
    id: Seq<char>,
)
    requires
        same_track(a, b, id) || described(document, id),
    ensures
        same_track(with_document(a, document), with_document(b, document), id),
        described(document, id) ==> with_document(a, document).contains_key(id),
    decreases document,
{
    if described(document, id) {
        lemma_described_where(document, id);
    }
    match document {
        json::JsonView::Object(fields) => {
            let inner_a = with_object(a, document);
            let inner_b = with_object(b, document);
            if exists|name: Seq<char>| #[trigger] describes(document, id, name) {
                let name = choose|name: Seq<char>| #[trigger] describes(document, id, name);
                lemma_object_describes(document, id, name);
                assert(inner_a.contains_key(id));
            } else if described(document, id) {
                let i = choose|i: int|
                    (#[trigger] child(document, i)) is Some && described(child(document, i)->0, id);
                assert(described(fields[i].1, id));
            }
            lemma_fields_settle(inner_a, inner_b, fields, id);
        },
        json::JsonView::Array(items) => {
            if described(document, id) {
                if exists|name: Seq<char>| #[trigger] describes(document, id, name) {
                    assert(false);
                }
                let i = choose|i: int|
                    (#[trigger] child(document, i)) is Some && described(child(document, i)->0, id);
                assert(described(items[i], id));
            }
            lemma_items_settle(a, b, items, id);
        },
        _ => {},
    }
}

proof fn lemma_fields_settle(
    a: Map<Seq<char>, Seq<char>>,
    b: Map<Seq<char>, Seq<char>>,
    fields: Seq<(Seq<char>, json::JsonView)>,
    id: Seq<char>,
)
    requires
        same_track(a, b, id) || exists|i: int|
            0 <= i < fields.len() && described((#[trigger] fields[i]).1, id),
    ensures
        same_track(with_fields(a, fields), with_fields(b, fields), id),
        a.contains_key(id) ==> with_fields(a, fields).contains_key(id),
        (exists|i: int| 0 <= i < fields.len() && described((#[trigger] fields[i]).1, id))
            ==> with_fields(a, fields).contains_key(id),
    decreases fields,
{
    if fields.len() > 0 {
        let rest = fields.drop_last();
        let last = fields[fields.len() - 1].1;
        let later_a = with_fields(a, rest);
        let later_b = with_fields(b, rest);
        if !described(last, id) {
            if exists|i: int| 0 <= i < fields.len() && described((#[trigger] fields[i]).1, id) {
                let i = choose|i: int|
                    0 <= i < fields.len() && described((#[trigger] fields[i]).1, id);
                assert(rest[i] == fields[i]);
            }
            lemma_fields_settle(a, b, rest, id);
        }
        lemma_document_settles(later_a, later_b, last, id);
        if a.contains_key(id) {
            lemma_fields_keep(a, fields, id);
        }
        if later_a.contains_key(id) {
            law_document_keeps_tracks(later_a, last, id);
        }
    }
}

proof fn lemma_items_settle(
    a: Map<Seq<char>, Seq<char>>,
    b: Map<Seq<char>, Seq<char>>,
    items: Seq<json::JsonView>,
    id: Seq<char>,
)
    requires
        same_track(a, b, id) || exists|i: int|
            0 <= i < items.len() && described(#[trigger] items[i], id),
    ensures
        same_track(with_items(a, items), with_items(b, items), id),
        (exists|i: int| 0 <= i < items.len() && described(#[trigger] items[i], id)) ==> with_items(
            a,
            items,
        ).contains_key(id),
    decreases items,
{
    if items.len() > 0 {
        let rest = items.drop_last();
        let last = items[items.len() - 1];
        let later_a = with_items(a, rest);
        let later_b = with_items(b, rest);
        if !described(last, id) {
            if exists|i: int| 0 <= i < items.len() && described(#[trigger] items[i], id) {
                let i = choose|i: int| 0 <= i < items.len() && described(#[trigger] items[i], id);
                assert(rest[i] == items[i]);
            }
            lemma_items_settle(a, b, rest, id);
        }
        lemma_document_settles(later_a, later_b, last, id);
        if later_a.contains_key(id) {
            law_document_keeps_tracks(later_a, last, id);
        }
    }
}

/// No track of a document is missed: whatever stands at the end of any path into
/// it, however deep and below whatever objects and arrays, and has the identifier
/// of a track and a name, has its identifier among the tracks afterwards.
pub proof fn law_every_track_is_found(
    known: Map<Seq<char>, Seq<char>>,
    document: json::JsonView,
    path: Seq<int>,
    id: Seq<char>,
    name: Seq<char>,
)
    requires
        described_at(document, path, id, name),
    ensures
        with_document(known, document).contains_key(id),
{
    assert(described(document, id));
    lemma_document_settles(known, known, document, id);
}

/// What a document says of a track replaces what was known of it.
pub proof fn law_document_renames(
    known: Map<Seq<char>, Seq<char>>,
    document: json::JsonView,
    path: Seq<int>,
    id: Seq<char>,
    name: Seq<char>,
)
    requires
        described_at(document, path, id, name),
    ensures
        with_document(known, document)[id] == with_document(Map::empty(), document)[id],
{
    assert(described(document, id));
    lemma_document_settles(known, Map::empty(), document, id);
}

/// No track is made up: one that is among the tracks after a document was read,
/// under a name, was known under that name or stands under it at the end of some
/// path into the document.
pub proof fn law_every_track_was_there(
    known: Map<Seq<char>, Seq<char>>,
    document: json::JsonView,
    id: Seq<char>,
)
    requires
        with_document(known, document).contains_key(id),
    ensures
        ({
            let name = with_document(known, document)[id];
            ||| known.contains_key(id) && known[id] == name && !described(document, id)
            ||| exists|path: Seq<int>| #[trigger] described_at(document, path, id, name)
        }),
{
    if described(document, id) {
        let rest = known.remove(id);
        lemma_document_settles(known, rest, document, id);
        lemma_document_source(rest, document, id);
    } else {
        lemma_document_source(known, document, id);
        let name = with_document(known, document)[id];
        if exists|path: Seq<int>| #[trigger] described_at(document, path, id, name) {
            let path = choose|path: Seq<int>| #[trigger] described_at(document, path, id, name);
            assert(described_at(document, path, id, name));
        }
    }
}

proof fn lemma_document_source(
    known: Map<Seq<char>, Seq<char>>,
    document: json::JsonView,
    id: Seq<char>,
)
    requires
        with_document(known, document).contains_key(id),
    ensures
        ({
            let name = with_document(known, document)[id];
            ||| known.contains_key(id) && known[id] == name
            ||| exists|path: Seq<int>| #[trigger] described_at(document, path, id, name)
        }),
    decreases document,
{
    let name = with_document(known, document)[id];
    match document {
        json::JsonView::Object(fields) => {
            let inner = with_object(known, document);
            lemma_fields_source(inner, fields, id);
            if inner.contains_key(id) && inner[id] == name {
                if object_id(document) == Some(id) && document.at("name"@).text() is Some {
                    lemma_object_describes(document, id, name);
                    assert(described_at(document, Seq::empty(), id, name));
                }
            } else {
                let i = choose|i: int|
                    0 <= i < fields.len() && named_below((#[trigger] fields[i]).1, id, name);
                let path = choose|path: Seq<int>|
                    #[trigger] described_at(fields[i].1, path, id, name);
                assert(child(document, i) == Some(fields[i].1));
                lemma_step_into(document, i, path);
                assert(described_at(document, seq![i] + path, id, name));
            }
        },
        json::JsonView::Array(items) => {
            lemma_items_source(known, items, id);
            if !(known.contains_key(id) && known[id] == name) {
                let i = choose|i: int|
                    0 <= i < items.len() && named_below(#[trigger] items[i], id, name);
                let path = choose|path: Seq<int>| #[trigger] described_at(items[i], path, id, name);
                assert(child(document, i) == Some(items[i]));
                lemma_step_into(document, i, path);
                assert(described_at(document, seq![i] + path, id, name));
            }
        },
        _ => {},
    }
}

/// Somewhere in the document stands something with that identifier and that name.
spec fn named_below(document: json::JsonView, id: Seq<char>, name: Seq<char>) -> bool {
    exists|path: Seq<int>| #[trigger] described_at(document, path, id, name)
}

proof fn lemma_fields_source(
    known: Map<Seq<char>, Seq<char>>,
    fields: Seq<(Seq<char>, json::JsonView)>,
    id: Seq<char>,
)
    requires
        with_fields(known, fields).contains_key(id),
    ensures
        ({
            let name = with_fields(known, fields)[id];
            ||| known.contains_key(id) && known[id] == name
            ||| exists|i: int| 0 <= i < fields.len() && named_below((#[trigger] fields[i]).1, id, name)
        }),
    decreases fields,
{
    if fields.len() > 0 {
        let rest = fields.drop_last();
        let last = fields[fields.len() - 1];
        let name = with_fields(known, fields)[id];
        lemma_document_source(with_fields(known, rest), last.1, id);
        if named_below(last.1, id, name) {
            assert(fields[fields.len() - 1] == last);
        } else {
            lemma_fields_source(known, rest, id);
            if !(known.contains_key(id) && known[id] == name) {
                let i = choose|i: int|
                    0 <= i < rest.len() && named_below((#[trigger] rest[i]).1, id, name);
                assert(fields[i] == rest[i]);
            }
        }
    }
}

proof fn lemma_items_source(
    known: Map<Seq<char>, Seq<char>>,
    items: Seq<json::JsonView>,
    id: Seq<char>,
)
    requires
        with_items(known, items).contains_key(id),
    ensures
        ({
            let name = with_items(known, items)[id];
            ||| known.contains_key(id) && known[id] == name
            ||| exists|i: int| 0 <= i < items.len() && named_below(#[trigger] items[i], id, name)
        }),
    decreases items,
{
    if items.len() > 0 {
        let rest = items.drop_last();
        let last = items[items.len() - 1];
        let name = with_items(known, items)[id];
        lemma_document_source(with_items(known, rest), last, id);
        if named_below(last, id, name) {
            assert(items[items.len() - 1] == last);
        } else {
            lemma_items_source(known, rest, id);
            if !(known.contains_key(id) && known[id] == name) {
                let i = choose|i: int| 0 <= i < rest.len() && named_below(#[trigger] rest[i], id, name);
                assert(items[i] == rest[i]);
            }
        }
    }
}

// ---------------------------------------------------------------------------
// Laws of the pages
// ---------------------------------------------------------------------------

/// Each item of a page contributes by itself and in its place: the lines for two
/// lists of items put together are those for the first, then those for the second.
pub proof fn law_lines_come_in_order(
    kind: CollectionKind,
    first: Seq<json::JsonView>,
    second: Seq<json::JsonView>,
)
    ensures
        page_lines(kind, first + second) == page_lines(kind, first) + page_lines(kind, second),
    decreases second.len(),
{
    if second.len() == 0 {
        assert(first + second =~= first);
        assert(page_lines(kind, first) + page_lines(kind, second) =~= page_lines(kind, first));
    } else {
        let whole = first + second;
        assert(whole.drop_last() =~= first + second.drop_last());
        assert(whole.last() == second.last());
        law_lines_come_in_order(kind, first, second.drop_last());
        assert(page_lines(kind, whole) =~= page_lines(kind, first) + page_lines(kind, second));
    }
}

/// An item that holds a track gives one line: the URI made of the identifier, a
/// bar, the name, a dash between spaces and the name of the first artist. An item
/// of an album is the track; an item of a playlist holds it in a field.
pub proof fn law_line_of_an_item(
    item: json::JsonView,
    track: json::JsonView,
    id: Seq<char>,
    name: Seq<char>,
    artists: Seq<json::JsonView>,
    artist: Seq<char>,
)
    requires
        track.at("id"@) == json::JsonView::Text(id),
        track.at("name"@) == json::JsonView::Text(name),
        track.at("artists"@) == json::JsonView::Array(artists),
        artists.len() > 0,
        artists[0].at("name"@) == json::JsonView::Text(artist),
    ensures
        ({
            let line = "spotify:track:"@ + id + "|"@ + name + " - "@ + artist;
            &&& page_lines(CollectionKind::Album, seq![track]) == seq![line]
            &&& item.get("track"@) == Some(track) ==> page_lines(
                CollectionKind::Playlist,
                seq![item],
            ) == seq![line]
            &&& track.get("track"@) is None ==> page_lines(CollectionKind::Playlist, seq![track])
                == seq![line]
        }),
{
    let line = "spotify:track:"@ + id + "|"@ + name + " - "@ + artist;
    assert(track_line(track) == Some(line));
    lemma_one_item(CollectionKind::Album, track);
    lemma_one_item(CollectionKind::Playlist, item);
    lemma_one_item(CollectionKind::Playlist, track);
}

proof fn lemma_one_item(kind: CollectionKind, item: json::JsonView)
    ensures
        page_lines(kind, seq![item]) == (match track_line(track_in(kind, item)) {
            Some(line) => seq![line],
            None => Seq::empty(),
        }),
{
    let items = seq![item];
    assert(items.drop_last() =~= Seq::empty());
    assert(page_lines(kind, items.drop_last()) =~= Seq::empty());
    assert(page_lines(kind, items) =~= match track_line(track_in(kind, item)) {
        Some(line) => seq![line],
        None => Seq::empty(),
    });
}

/// A track without a name is listed as unknown, and so is one without an artist;
/// one without an identifier is not listed.
pub proof fn law_line_of_a_bare_track(track: json::JsonView, id: Seq<char>)
    requires
        track.at("id"@) == json::JsonView::Text(id),
        !(track.at("name"@) is Text),
        track.at("artists"@) == json::JsonView::Array(Seq::empty()) || !(track.at(
            "artists"@,
        ) is Array),
    ensures
        page_lines(CollectionKind::Album, seq![track]) == seq![
            "spotify:track:"@ + id + "|Unknown Track - Unknown Artist"@,
        ],
{
    lemma_one_item(CollectionKind::Album, track);
    reveal_strlit("|");
    reveal_strlit("Unknown Track");
    reveal_strlit(" - ");
    reveal_strlit("Unknown Artist");
    reveal_strlit("|Unknown Track - Unknown Artist");
    assert("spotify:track:"@ + id + "|"@ + "Unknown Track"@ + " - "@ + "Unknown Artist"@
        =~= "spotify:track:"@ + id + "|Unknown Track - Unknown Artist"@);
}

/// An item in which there is no identifier gives no line.
pub proof fn law_no_line_without_identifier(kind: CollectionKind, item: json::JsonView)
    requires
        !(item.at("id"@) is Text),
        kind == CollectionKind::Playlist && item.get("track"@) is Some ==> !(item.at("track"@).at(
            "id"@,
        ) is Text),
    ensures
        page_lines(kind, seq![item]) == Seq::<Seq<char>>::empty(),
{
    lemma_one_item(kind, item);
}

/// Every document that a page holds is read whole: a track at the end of any path
/// into any of them is among the tracks of the page.
pub proof fn law_every_embedded_track_is_found(
    documents: Seq<Seq<Option<Seq<char>>>>,
    mentions: Seq<Seq<Option<Seq<char>>>>,
    i: int,
    data: Seq<char>,
    bytes: Seq<u8>,
    document: json::JsonView,
    path: Seq<int>,
    id: Seq<char>,
    name: Seq<char>,
)
    requires
        0 <= i < documents.len(),
        documents[i].len() > 1,
        documents[i][1] == Some(data),
        codec::base64_decoded(padded("eyJ"@ + data)) == Some(bytes),
        json::document_of_text(codec::utf8_lossy(bytes)) == Some(document),
        described_at(document, path, id, name),
    ensures
        tracks_of(documents, mentions).contains_key(id),
        tracks_of(documents, mentions)[id] == with_embedded(Map::empty(), documents)[id],
{
    assert(embedded(documents[i]) == Some(document));
    lemma_embedded_found(Map::empty(), documents, i, document, path, id, name);
    law_mention_keeps_names(with_embedded(Map::empty(), documents), mentions);
}

proof fn lemma_embedded_found(
    known: Map<Seq<char>, Seq<char>>,
    found: Seq<Seq<Option<Seq<char>>>>,
    i: int,
    document: json::JsonView,
    path: Seq<int>,
    id: Seq<char>,
    name: Seq<char>,
)
    requires
        0 <= i < found.len(),
        embedded(found[i]) == Some(document),
        described_at(document, path, id, name),
    ensures
        with_embedded(known, found).contains_key(id),
    decreases found.len(),
{
    let before = with_embedded(known, found.drop_last());
    if i == found.len() - 1 {
        law_every_track_is_found(before, document, path, id, name);
    } else {
        assert(found.drop_last()[i] == found[i]);
        lemma_embedded_found(known, found.drop_last(), i, document, path, id, name);
        if let Some(last) = embedded(found.last()) {
            law_document_keeps_tracks(before, last, id);
        }
    }
}

/// Every track that a page mentions, in either form, is among its tracks; one that
/// no document names is unknown.
pub proof fn law_every_mentioned_track_is_found(
    documents: Seq<Seq<Option<Seq<char>>>>,
    mentions: Seq<Seq<Option<Seq<char>>>>,
    i: int,
    id: Seq<char>,
)
    requires
        0 <= i < mentions.len(),
        mentions[i].len() > 2,
        mentions[i][1] == Some(id) || (mentions[i][1] is None && mentions[i][2] == Some(id)),
    ensures
        tracks_of(documents, mentions).contains_key(id),
        !with_embedded(Map::empty(), documents).contains_key(id) ==> tracks_of(
            documents,
            mentions,
        )[id] == "Unknown Track"@,
{
    assert(mentioned(mentions[i]) == Some(id));
    law_mention_keeps_names(with_embedded(Map::empty(), documents), mentions);
}

// ---------------------------------------------------------------------------
// Laws of the links to collections
// ---------------------------------------------------------------------------

/// A path below which a collection of a kind is found by its identifier, with or
/// without a language in front, and with slashes at either end or without.
pub proof fn law_path_of_a_collection(
    front: Seq<char>,
    language: Seq<char>,
    id: Seq<char>,
    back: Seq<char>,
)
    requires
        text::all_in(text::Charset::One('/'), front),
        text::all_in(text::Charset::One('/'), back),
        language.len() > 0,
        !language.contains('/'),
        id.len() > 0,
        !id.contains('/'),
    ensures
        collection_in(front + ("album/"@ + id) + back) == Some((CollectionKind::Album, id)),
        collection_in(front + ("playlist/"@ + id) + back) == Some((CollectionKind::Playlist, id)),
        collection_in(front + (language + "/album/"@ + id) + back) == Some(
            (CollectionKind::Album, id),
        ),
        collection_in(front + (language + "/playlist/"@ + id) + back) == Some(
            (CollectionKind::Playlist, id),
        ),
{
    reveal_strlit("album");
    reveal_strlit("playlist");
    reveal_strlit("album/");
    reveal_strlit("playlist/");
    reveal_strlit("/album/");
    reveal_strlit("/playlist/");
    assert("album"@.len() == 5 && "playlist"@.len() == 8);
    assert forall|i: int| 0 <= i < "album"@.len() implies "album"@[i] != '/' by {}
    assert forall|i: int| 0 <= i < "playlist"@.len() implies "playlist"@[i] != '/' by {}
    assert("album"@ + seq!['/'] + id =~= "album/"@ + id);
    assert("playlist"@ + seq!['/'] + id =~= "playlist/"@ + id);
    assert(language + seq!['/'] + ("album"@ + seq!['/'] + id) =~= language + "/album/"@ + id);
    assert(language + seq!['/'] + ("playlist"@ + seq!['/'] + id) =~= language + "/playlist/"@ + id);
    lemma_collection_path(front, language, "album"@, id, back);
    lemma_collection_path(front, language, "playlist"@, id, back);
    lemma_words_for_kinds();
}

proof fn lemma_words_for_kinds()
    ensures
        kind_named("album"@) == Some(CollectionKind::Album),
        kind_named("playlist"@) == Some(CollectionKind::Playlist),
{
    reveal_strlit("album");
    reveal_strlit("playlist");
    assert("album"@.len() == 5 && "playlist"@.len() == 8);
}

proof fn lemma_collection_path(
    front: Seq<char>,
    language: Seq<char>,
    word: Seq<char>,
    id: Seq<char>,
    back: Seq<char>,
)
    requires
        text::all_in(text::Charset::One('/'), front),
        text::all_in(text::Charset::One('/'), back),
        language.len() > 0,
        !language.contains('/'),
        id.len() > 0,
        !id.contains('/'),
        word.len() > 0,
        forall|i: int| 0 <= i < word.len() ==> word[i] != '/',
        kind_named(word) is Some,
    ensures
        collection_in(front + (word + seq!['/'] + id) + back) == Some((kind_named(word)->0, id)),
        collection_in(front + (language + seq!['/'] + (word + seq!['/'] + id)) + back) == Some(
            (kind_named(word)->0, id),
        ),
{
    let set = text::Charset::One('/');
    let short = word + seq!['/'] + id;
    let long = language + seq!['/'] + short;
    lemma_no_slash(language);
    lemma_no_slash(id);
    assert(!word.contains('/'));
    lemma_no_slash(word);
    text::law_one_piece(set, word);
    text::law_one_piece(set, id);
    text::law_one_piece(set, language);
    text::law_separator_cuts(set, word, '/', id);
    text::law_separator_cuts(set, language, '/', short);
    assert(short[0] == word[0] && short.last() == id.last());
    assert(long[0] == language[0] && long.last() == id.last());
    text::law_trimming_keeps_the_middle(set, front, short, back);
    text::law_trimming_keeps_the_middle(set, front, long, back);
    assert(seq![word] + seq![id] =~= seq![word, id]);
    assert(seq![language] + seq![word, id] =~= seq![language, word, id]);
}

proof fn lemma_no_slash(s: Seq<char>)
    requires
        !s.contains('/'),
    ensures
        forall|i: int| 0 <= i < s.len() ==> !text::member(text::Charset::One('/'), #[trigger] s[i]),
{
    assert forall|i: int| 0 <= i < s.len() implies !text::member(
        text::Charset::One('/'),
        #[trigger] s[i],
    ) by {
        if s[i] == '/' {
            assert(s.contains('/'));
        }
    }
}

/// The word, a slash and the identifier, or that below one more part.
pub open spec fn names_by(inner: Seq<char>, word: Seq<char>, id: Seq<char>) -> bool {
    ||| inner == word + seq!['/'] + id
    ||| exists|part: Seq<char>| !part.contains('/') && #[trigger] names_below(inner, part, word, id)
}

/// A part, a slash, the word, a slash and the identifier.
pub open spec fn names_below(
    inner: Seq<char>,
    part: Seq<char>,
    word: Seq<char>,
    id: Seq<char>,
) -> bool {
    inner == part + seq!['/'] + word + seq!['/'] + id
}

/// Only such a path names a collection: but for slashes at either end it is the
/// word for the kind, a slash and the identifier, or that below one more part.
pub proof fn law_only_collections_have_such_paths(
    path: Seq<char>,
    kind: CollectionKind,
    id: Seq<char>,
)
    requires
        collection_in(path) == Some((kind, id)),
    ensures
        !id.contains('/'),
        kind == CollectionKind::Album ==> names_by(
            text::trimmed(text::Charset::One('/'), path),
            "album"@,
            id,
        ),
        kind == CollectionKind::Playlist ==> names_by(
            text::trimmed(text::Charset::One('/'), path),
            "playlist"@,
            id,
        ),
{
    let set = text::Charset::One('/');
    let inner = text::trimmed(set, path);
    let parts = text::split(set, inner);
    text::law_joining_undoes_split(inner, '/');
    let word = if kind == CollectionKind::Album {
        "album"@
    } else {
        "playlist"@
    };
    if parts.len() == 2 {
        assert(!parts[1].contains('/'));
        assert(parts =~= seq![parts[0]] + seq![parts[1]]);
        text::law_joined_in_parts(seq![parts[0]], seq![parts[1]], seq!['/']);
        text::law_one_part_is_joined(parts[0], seq!['/']);
        text::law_one_part_is_joined(parts[1], seq!['/']);
        assert(parts[0] == word && parts[1] == id);
        assert(inner == word + seq!['/'] + id);
    } else {
        assert(!parts[0].contains('/') && !parts[2].contains('/'));
        let two = seq![parts[0]] + seq![parts[1]];
        assert(parts =~= two + seq![parts[2]]);
        text::law_joined_in_parts(two, seq![parts[2]], seq!['/']);
        text::law_joined_in_parts(seq![parts[0]], seq![parts[1]], seq!['/']);
        text::law_one_part_is_joined(parts[0], seq!['/']);
        text::law_one_part_is_joined(parts[1], seq!['/']);
        text::law_one_part_is_joined(parts[2], seq!['/']);
        assert(parts[1] == word && parts[2] == id);
        assert(names_below(inner, parts[0], word, id));
        assert(names_by(inner, word, id));
    }
}

/// A line of a list says which track it is for: what stands before its bar names
/// that very track, and what stands after it is the name.
pub proof fn law_line_names_its_track(id: Seq<char>, name: Seq<char>)
    requires
        crate::spotify_dbus::valid_id(id),
    ensures
        ({
            let line = line_for(id, name);
            let bar = 14 + id.len() as int;
            &&& crate::metadata::track_id_of(line.take(bar)) == Ok::<
                Seq<char>,
                crate::metadata::TrackIdFailure,
            >(id)
            &&& line[bar] == '|'
            &&& line.skip(bar + 1) == name
        }),
{
    reveal_strlit("spotify:track:");
    reveal_strlit("|");
    let line = line_for(id, name);
    let bar = 14 + id.len() as int;
    assert(line.take(bar) =~= "spotify:track:"@ + id);
    assert(line.skip(bar + 1) =~= name);
    crate::metadata::law_identifier_names_its_track(id);
}

} // verus!
