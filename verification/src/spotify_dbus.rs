//! Control of Spotify Desktop over MPRIS2: the `dbus-send` calls that are made
//! and what their replies say.
//!
//! Spotify is on the session bus as `org.mpris.MediaPlayer2.spotify`.
use crate::codec;
use crate::text;
use vstd::prelude::*;

verus! {

/// Metadata retrieved from Spotify via MPRIS.
#[derive(Clone, Debug)]
pub struct MprisMetadata {
    pub track_id: String,
    pub title: String,
    pub artist: String,
    pub album: String,
    pub art_url: String,
    pub duration_us: u64,
}

/// What the metadata of a track says.
pub struct MprisView {
    pub track_id: Seq<char>,
    pub title: Seq<char>,
    pub artist: Seq<char>,
    pub album: Seq<char>,
    pub art_url: Seq<char>,
    pub duration_us: u64,
}

impl View for MprisMetadata {
    type V = MprisView;

    open spec fn view(&self) -> MprisView {
        MprisView {
            track_id: self.track_id@,
            title: self.title@,
            artist: self.artist@,
            album: self.album@,
            art_url: self.art_url@,
            duration_us: self.duration_us,
        }
    }
}

#[derive(Clone, Copy, Debug, PartialEq, Eq, Structural)]
pub enum PlaybackStatus {
    Playing,
    Paused,
    Stopped,
}

/// Why a request to Spotify failed.
#[derive(Clone, Debug)]
pub enum DbusError {
    /// The call itself failed, with these words.
    Call(String),
    /// A number in a reply is none, or too large.
    InvalidInteger,
    /// A reply holds no number.
    NoInteger,
    /// The metadata names no track.
    NoTrackId,
    /// What was to be opened is no Spotify track.
    NotSpotify,
    /// Spotify did not start playing the track in time.
    NotStarted,
    /// Spotify was paused for too long.
    PausedTooLong,
    /// The recording was cancelled.
    Cancelled,
}

/// The words of an error.
pub open spec fn error_words(e: DbusError) -> Seq<char> {
    match e {
        DbusError::Call(words) => words@,
        DbusError::InvalidInteger => "Invalid integer in D-Bus response"@,
        DbusError::NoInteger => "No integer value found in D-Bus response"@,
        DbusError::NoTrackId => "No track ID in Spotify metadata"@,
        DbusError::NotSpotify => "URI must be a Spotify track URI or URL"@,
        DbusError::NotStarted => "Timed out waiting for Spotify to start playing the track"@,
        DbusError::PausedTooLong => "Spotify paused for over 60 seconds; capture stopped"@,
        DbusError::Cancelled => "Capture cancelled"@,
    }
}

impl DbusError {
    /// The error in words.
    pub fn message(&self) -> (r: String)
        ensures
            r@ == error_words(*self),
    {
        match self {
            DbusError::Call(words) => words.clone(),
            DbusError::InvalidInteger => "Invalid integer in D-Bus response".to_owned(),
            DbusError::NoInteger => "No integer value found in D-Bus response".to_owned(),
            DbusError::NoTrackId => "No track ID in Spotify metadata".to_owned(),
            DbusError::NotSpotify => "URI must be a Spotify track URI or URL".to_owned(),
            DbusError::NotStarted =>
                "Timed out waiting for Spotify to start playing the track".to_owned(),
            DbusError::PausedTooLong =>
                "Spotify paused for over 60 seconds; capture stopped".to_owned(),
            DbusError::Cancelled => "Capture cancelled".to_owned(),
        }
    }
}

// ---------------------------------------------------------------------------
// One line of a reply
// ---------------------------------------------------------------------------

/// What follows the word `variant` in a line, without white space around it.
pub open spec fn after_variant(line: Seq<char>) -> Option<Seq<char>> {
    match text::after_prefix(text::trim_white(line), "variant"@) {
        Some(rest) => Some(text::trim_white(rest)),
        None => None,
    }
}

/// What follows the opening quote in a line that says `variant string "`.
pub open spec fn after_variant_quote(line: Seq<char>) -> Option<Seq<char>> {
    match after_variant(line) {
        Some(rest) => match text::after_prefix(rest, "string"@) {
            Some(rest) => text::after_prefix(text::trim_white(rest), "\""@),
            None => None,
        },
        None => None,
    }
}

/// The value in a line that says `string "value"`.
pub open spec fn bare_string(line: Seq<char>) -> Option<Seq<char>> {
    match text::after_prefix(text::trim_white(line), "string \""@) {
        Some(rest) => text::before_suffix(rest, "\""@),
        None => None,
    }
}

/// The string in one line of a reply: `variant string "value"` or
/// `string "value"`.
pub open spec fn line_string(line: Seq<char>) -> Option<Seq<char>> {
    match after_variant_quote(line) {
        Some(rest) => match text::before_suffix(rest, "\""@) {
            Some(value) => Some(value),
            None => bare_string(line),
        },
        None => bare_string(line),
    }
}

/// The number in one line of a reply, as it is written: what follows `int64` or
/// `uint64`, with or without `variant` before.
pub open spec fn line_number(line: Seq<char>) -> Option<Seq<char>> {
    let content = match after_variant(line) {
        Some(rest) => rest,
        None => text::trim_white(line),
    };
    match text::after_prefix(content, "int64 "@) {
        Some(rest) => Some(text::trim_white(rest)),
        None => match text::after_prefix(content, "uint64 "@) {
            Some(rest) => Some(text::trim_white(rest)),
            None => None,
        },
    }
}

fn read_after_variant<'a>(line: &'a [char]) -> (r: Option<&'a [char]>)
    ensures
        match r {
            Some(rest) => after_variant(line@) == Some(rest@),
            None => after_variant(line@) is None,
        },
{
    match text::strip_prefix(text::trim(text::Charset::White, line), "variant") {
        Some(rest) => Some(text::trim(text::Charset::White, rest)),
        None => None,
    }
}

fn read_after_variant_quote<'a>(line: &'a [char]) -> (r: Option<&'a [char]>)
    ensures
        match r {
            Some(rest) => after_variant_quote(line@) == Some(rest@),
            None => after_variant_quote(line@) is None,
        },
{
    match read_after_variant(line) {
        Some(rest) => match text::strip_prefix(rest, "string") {
            Some(rest) => text::strip_prefix(text::trim(text::Charset::White, rest), "\""),
            None => None,
        },
        None => None,
    }
}

fn read_bare_string<'a>(line: &'a [char]) -> (r: Option<&'a [char]>)
    ensures
        match r {
            Some(value) => bare_string(line@) == Some(value@),
            None => bare_string(line@) is None,
        },
{
    match text::strip_prefix(text::trim(text::Charset::White, line), "string \"") {
        Some(rest) => text::strip_suffix(rest, "\""),
        None => None,
    }
}

fn read_line_string<'a>(line: &'a [char]) -> (r: Option<&'a [char]>)
    ensures
        match r {
            Some(value) => line_string(line@) == Some(value@),
            None => line_string(line@) is None,
        },
{
    if let Some(rest) = read_after_variant_quote(line) {
        if let Some(value) = text::strip_suffix(rest, "\"") {
            return Some(value);
        }
    }
    read_bare_string(line)
}

fn read_line_number<'a>(line: &'a [char]) -> (r: Option<&'a [char]>)
    ensures
        match r {
            Some(digits) => line_number(line@) == Some(digits@),
            None => line_number(line@) is None,
        },
{
    let content = match read_after_variant(line) {
        Some(rest) => rest,
        None => text::trim(text::Charset::White, line),
    };
    match text::strip_prefix(content, "int64 ") {
        Some(rest) => Some(text::trim(text::Charset::White, rest)),
        None => match text::strip_prefix(content, "uint64 ") {
            Some(rest) => Some(text::trim(text::Charset::White, rest)),
            None => None,
        },
    }
}

// ---------------------------------------------------------------------------
// Replies with one value
// ---------------------------------------------------------------------------

/// The string in the first of `lines` that holds one.
pub open spec fn first_string(lines: Seq<Seq<char>>) -> Option<Seq<char>>
    decreases lines.len(),
{
    if lines.len() == 0 {
        None
    } else {
        match line_string(lines[0]) {
            Some(value) => Some(value),
            None => first_string(lines.drop_first()),
        }
    }
}

/// The number in the first of `lines` that holds one, as it is written.
pub open spec fn first_number(lines: Seq<Seq<char>>) -> Option<Seq<char>>
    decreases lines.len(),
{
    if lines.len() == 0 {
        None
    } else {
        match line_number(lines[0]) {
            Some(digits) => Some(digits),
            None => first_number(lines.drop_first()),
        }
    }
}

/// The string of a reply; empty where it holds none.
pub open spec fn reply_string(reply: Seq<char>) -> Seq<char> {
    match first_string(text::lines(reply)) {
        Some(value) => value,
        None => Seq::empty(),
    }
}

/// The number of a reply.
pub open spec fn reply_number(reply: Seq<char>) -> Result<u64, DbusError> {
    match first_number(text::lines(reply)) {
        Some(digits) => match text::parsed(digits, u64::MAX as nat) {
            Some(n) => Ok(n as u64),
            None => Err(DbusError::InvalidInteger),
        },
        None => Err(DbusError::NoInteger),
    }
}

/// The string that a reply holds, or the empty string.
pub fn extract_string_variant(reply: &str) -> (r: String)
    ensures
        r@ == reply_string(reply@),
{
    let cs = text::chars_of(reply);
    let lines = text::lines_of(cs.as_slice());
    let ghost all = text::lines(reply@);
    assert(all.skip(0) =~= all);
    for i in 0..lines.len()
        invariant
            all == text::runs(lines@),
            all == text::lines(reply@),
            first_string(all) == first_string(all.skip(i as int)),
    {
        assert(all.skip(i as int)[0] == lines@[i as int]@);
        if let Some(value) = read_line_string(lines[i].as_slice()) {
            return text::string_of(value);
        }
        assert(all.skip(i as int).drop_first() =~= all.skip(i as int + 1));
    }
    String::new()
}

/// The number that a reply holds.
pub fn extract_int64(reply: &str) -> (r: Result<u64, DbusError>)
    ensures
        r == reply_number(reply@),
{
    let cs = text::chars_of(reply);
    let lines = text::lines_of(cs.as_slice());
    let ghost all = text::lines(reply@);
    assert(all.skip(0) =~= all);
    for i in 0..lines.len()
        invariant
            all == text::runs(lines@),
            all == text::lines(reply@),
            first_number(all) == first_number(all.skip(i as int)),
    {
        assert(all.skip(i as int)[0] == lines@[i as int]@);
        if let Some(digits) = read_line_number(lines[i].as_slice()) {
            return match text::parse_number(digits, u64::MAX) {
                Some(n) => Ok(n),
                None => Err(DbusError::InvalidInteger),
            };
        }
        assert(all.skip(i as int).drop_first() =~= all.skip(i as int + 1));
    }
    Err(DbusError::NoInteger)
}

proof fn lemma_after_variant(before: Seq<char>, after: Seq<char>, content: Seq<char>)
    requires
        forall|i: int| 0 <= i < before.len() ==> text::white_space(#[trigger] before[i]),
        forall|i: int| 0 <= i < after.len() ==> text::white_space(#[trigger] after[i]),
        content.len() > 0,
        !text::white_space(content[0]),
        !text::white_space(content.last()),
    ensures
        after_variant(before + "variant"@ + after + content) == Some(content),
{
    reveal_strlit("variant");
    let rest = "variant"@ + after + content;
    assert(before + "variant"@ + after + content =~= before + rest);
    assert(rest.last() == content.last());
    text::lemma_trim_padded(before, rest);
    assert("variant"@.is_prefix_of(rest));
    assert(rest.skip(7) =~= after + content);
    text::lemma_trim_padded(after, content);
}

proof fn lemma_value_line(content: Seq<char>)
    requires
        content.len() > 0,
        !text::white_space(content[0]),
        !text::white_space(content.last()),
    ensures
        after_variant("   variant       "@ + content) == Some(content),
{
    reveal_strlit("   variant       ");
    reveal_strlit("variant");
    let whole = "   variant       "@;
    lemma_after_variant(whole.take(3), whole.skip(10), content);
    assert(whole + content =~= whole.take(3) + "variant"@ + whole.skip(10) + content);
}

proof fn lemma_string_content(value: Seq<char>)
    ensures
        ({
            let content = "string \""@ + value + "\""@;
            &&& "string"@.is_prefix_of(content)
            &&& text::after_prefix(text::trim_white(content.skip("string"@.len() as int)), "\""@)
                == Some(value + "\""@)
            &&& content[0] == 's' && content.last() == '"'
        }),
{
    reveal_strlit("string \"");
    reveal_strlit("string");
    reveal_strlit("\"");
    let content = "string \""@ + value + "\""@;
    let quoted = "\""@ + value + "\""@;
    let spaced = content.skip(6);
    assert(spaced =~= spaced.take(1) + quoted);
    text::lemma_trim_padded(spaced.take(1), quoted);
    assert("\""@.is_prefix_of(quoted));
    assert(quoted.skip(1) =~= value + "\""@);
}

/// The reply to a request for a string property, as `dbus-send` prints it: a
/// header line, and the value in quotes.
pub open spec fn string_reply(header: Seq<char>, value: Seq<char>) -> Seq<char> {
    header.push('\n') + ("   variant       "@ + ("string \""@ + value + "\""@)).push('\n')
}

/// The reply to a request for a number property, as `dbus-send` prints it.
pub open spec fn number_reply(header: Seq<char>, n: nat) -> Seq<char> {
    header.push('\n') + ("   variant       "@ + ("int64 "@ + text::decimal(n))).push('\n')
}

/// A string property is read as it was replied, whatever it holds short of a line
/// feed, quotes too.
pub proof fn law_string_reply_reads_back(header: Seq<char>, value: Seq<char>)
    requires
        forall|i: int| 0 <= i < header.len() ==> #[trigger] header[i] != '\n',
        forall|i: int| 0 <= i < value.len() ==> #[trigger] value[i] != '\n',
        line_string(text::strip_return(header)) is None,
    ensures
        reply_string(string_reply(header, value)) == value,
{
    reveal_strlit("   variant       ");
    reveal_strlit("string \"");
    reveal_strlit("\"");
    let content = "string \""@ + value + "\""@;
    let line = "   variant       "@ + content;
    lemma_string_content(value);
    lemma_value_line(content);
    assert("\""@.is_suffix_of(value + "\""@));
    assert((value + "\""@).take(value.len() as int) =~= value);
    assert(line_string(line) == Some(value));
    assert forall|i: int| 0 <= i < line.len() implies #[trigger] line[i] != '\n' by {
        if 25 <= i < 25 + value.len() {
            assert(line[i] == value[i - 25]);
        }
    }
    text::lemma_two_lines(header, line);
    let all = text::lines(string_reply(header, value));
    assert(line.last() == '"');
    assert(all.drop_first() =~= seq![line]);
    assert(first_string(all.drop_first()) == Some(value));
    assert(first_string(all) == first_string(all.drop_first()));
}

/// A number property is read as it was replied, whatever it is.
pub proof fn law_number_reply_reads_back(header: Seq<char>, n: u64)
    requires
        forall|i: int| 0 <= i < header.len() ==> #[trigger] header[i] != '\n',
        line_number(text::strip_return(header)) is None,
    ensures
        reply_number(number_reply(header, n as nat)) == Ok::<u64, DbusError>(n),
{
    reveal_strlit("   variant       ");
    reveal_strlit("int64 ");
    let digits = text::decimal(n as nat);
    let content = "int64 "@ + digits;
    let line = "   variant       "@ + content;
    text::law_decimal_reads_back(n as nat, u64::MAX as nat);
    text::lemma_decimal_plain(n as nat, '\n');
    text::lemma_decimal_digits(n as nat);
    assert(content.last() == digits.last());
    lemma_value_line(content);
    assert("int64 "@.is_prefix_of(content));
    assert(content.skip(6) =~= Seq::empty() + digits);
    text::lemma_trim_padded(Seq::empty(), digits);
    assert(line_number(line) == Some(digits));
    assert forall|i: int| 0 <= i < line.len() implies #[trigger] line[i] != '\n' by {
        if 23 <= i {
            assert(line[i] == digits[i - 23]);
        }
    }
    text::lemma_two_lines(header, line);
    let all = text::lines(number_reply(header, n as nat));
    assert(line.last() == digits.last());
    assert(all.drop_first() =~= seq![line]);
    assert(first_number(all.drop_first()) == Some(digits));
    assert(first_number(all) == first_number(all.drop_first()));
}

// ---------------------------------------------------------------------------
// The metadata of a track
// ---------------------------------------------------------------------------

/// The keys of the metadata that are read.
pub enum Key {
    TrackId,
    Length,
    ArtUrl,
    Title,
    Album,
    Artist,
}

/// The key that a line names.
pub open spec fn key_of(line: Seq<char>) -> Option<Key> {
    let content = text::trim_white(line);
    if text::occurs(content, "\"mpris:trackid\""@) {
        Some(Key::TrackId)
    } else if text::occurs(content, "\"mpris:length\""@) {
        Some(Key::Length)
    } else if text::occurs(content, "\"mpris:artUrl\""@) {
        Some(Key::ArtUrl)
    } else if text::occurs(content, "\"xesam:title\""@) {
        Some(Key::Title)
    } else if text::occurs(content, "\"xesam:album\""@) {
        Some(Key::Album)
    } else if text::occurs(content, "\"xesam:artist\""@) {
        Some(Key::Artist)
    } else {
        None
    }
}

/// The value for a key, in the lines from `i` on, of which `left` are looked
/// at: the first `variant string "` decides, and is no value where the closing
/// quote is missing; before that a `string "value"` is taken.
pub open spec fn string_within(lines: Seq<Seq<char>>, i: int, left: nat) -> Option<Seq<char>>
    decreases left,
{
    if left == 0 || i >= lines.len() {
        None
    } else {
        match after_variant_quote(lines[i]) {
            Some(rest) => text::before_suffix(rest, "\""@),
            None => match bare_string(lines[i]) {
                Some(value) => Some(value),
                None => string_within(lines, i + 1, (left - 1) as nat),
            },
        }
    }
}

/// The number for a key, in the lines from `i` on, of which `left` are looked
/// at: the first that is written decides.
pub open spec fn number_within(lines: Seq<Seq<char>>, i: int, left: nat) -> Option<u64>
    decreases left,
{
    if left == 0 || i >= lines.len() {
        None
    } else {
        match line_number(lines[i]) {
            Some(digits) => match text::parsed(digits, u64::MAX as nat) {
                Some(n) => Some(n as u64),
                None => None,
            },
            None => number_within(lines, i + 1, (left - 1) as nat),
        }
    }
}

/// How many lines after its key a value may stand.
pub const REACH: usize = 5;

/// What is known before anything was read.
pub open spec fn no_metadata() -> MprisView {
    MprisView {
        track_id: Seq::empty(),
        title: Seq::empty(),
        artist: Seq::empty(),
        album: Seq::empty(),
        art_url: Seq::empty(),
        duration_us: 0,
    }
}

/// What is known once line `i` has been looked at.
pub open spec fn with_line(known: MprisView, lines: Seq<Seq<char>>, i: int) -> MprisView {
    let value = string_within(lines, i + 1, REACH as nat);
    match key_of(lines[i]) {
        Some(Key::Length) => match number_within(lines, i + 1, REACH as nat) {
            Some(n) => MprisView { duration_us: n, ..known },
            None => known,
        },
        Some(key) => match value {
            Some(value) => match key {
                Key::TrackId => MprisView { track_id: value, ..known },
                Key::ArtUrl => MprisView { art_url: value, ..known },
                Key::Title => MprisView { title: value, ..known },
                Key::Album => MprisView { album: value, ..known },
                Key::Artist => MprisView { artist: value, ..known },
                Key::Length => known,
            },
            None => known,
        },
        None => known,
    }
}

/// What the first `n` lines of a reply say of the track.
pub open spec fn metadata_in(lines: Seq<Seq<char>>, n: nat) -> MprisView
    decreases n,
{
    if n == 0 {
        no_metadata()
    } else {
        with_line(metadata_in(lines, (n - 1) as nat), lines, n - 1)
    }
}

/// What a reply says of the track.
pub open spec fn reply_metadata(reply: Seq<char>) -> MprisView {
    metadata_in(text::lines(reply), text::lines(reply).len())
}

fn read_key(line: &[char]) -> (r: Option<Key>)
    ensures
        r == key_of(line@),
{
    let content = text::trim(text::Charset::White, line);
    if text::contains(content, "\"mpris:trackid\"") {
        Some(Key::TrackId)
    } else if text::contains(content, "\"mpris:length\"") {
        Some(Key::Length)
    } else if text::contains(content, "\"mpris:artUrl\"") {
        Some(Key::ArtUrl)
    } else if text::contains(content, "\"xesam:title\"") {
        Some(Key::Title)
    } else if text::contains(content, "\"xesam:album\"") {
        Some(Key::Album)
    } else if text::contains(content, "\"xesam:artist\"") {
        Some(Key::Artist)
    } else {
        None
    }
}

/// The string that stands within reach after a key.
pub fn find_next_string_value(lines: &Vec<Vec<char>>, start: usize) -> (r: Option<String>)
    ensures
        match r {
            Some(value) => string_within(text::runs(lines@), start as int, REACH as nat) == Some(
                value@,
            ),
            None => string_within(text::runs(lines@), start as int, REACH as nat) is None,
        },
{
    let ghost all = text::runs(lines@);
    let mut i: usize = start;
    let mut left: usize = REACH;
    while left > 0 && i < lines.len()
        invariant
            all == text::runs(lines@),
            string_within(all, start as int, REACH as nat) == string_within(
                all,
                i as int,
                left as nat,
            ),
        decreases left,
    {
        let line = lines[i].as_slice();
        assert(all[i as int] == line@);
        if let Some(rest) = read_after_variant_quote(line) {
            return match text::strip_suffix(rest, "\"") {
                Some(value) => Some(text::string_of(value)),
                None => None,
            };
        }
        if let Some(value) = read_bare_string(line) {
            return Some(text::string_of(value));
        }
        i = i + 1;
        left = left - 1;
    }
    None
}

/// The number that stands within reach after a key.
pub fn find_next_uint64_value(lines: &Vec<Vec<char>>, start: usize) -> (r: Option<u64>)
    ensures
        r == number_within(text::runs(lines@), start as int, REACH as nat),
{
    let ghost all = text::runs(lines@);
    let mut i: usize = start;
    let mut left: usize = REACH;
    while left > 0 && i < lines.len()
        invariant
            all == text::runs(lines@),
            number_within(all, start as int, REACH as nat) == number_within(
                all,
                i as int,
                left as nat,
            ),
        decreases left,
    {
        let line = lines[i].as_slice();
        assert(all[i as int] == line@);
        if let Some(digits) = read_line_number(line) {
            return text::parse_number(digits, u64::MAX);
        }
        i = i + 1;
        left = left - 1;
    }
    None
}

/// Reads the metadata of a track off a reply. It is an error where no track is
/// named.
pub fn parse_metadata(reply: &str) -> (r: Result<MprisMetadata, DbusError>)
    ensures
        match r {
            Ok(meta) => meta@ == reply_metadata(reply@) && meta@.track_id.len() > 0,
            Err(e) => e == DbusError::NoTrackId && reply_metadata(reply@).track_id.len() == 0,
        },
{
    let cs = text::chars_of(reply);
    let lines = text::lines_of(cs.as_slice());
    let ghost all = text::lines(reply@);
    let mut meta = MprisMetadata {
        track_id: String::new(),
        title: String::new(),
        artist: String::new(),
        album: String::new(),
        art_url: String::new(),
        duration_us: 0,
    };
    for i in 0..lines.len()
        invariant
            all == text::runs(lines@),
            all == text::lines(reply@),
            meta@ == metadata_in(all, i as nat),
    {
        assert(all[i as int] == lines@[i as int]@);
        match read_key(lines[i].as_slice()) {
            Some(Key::Length) => {
                if let Some(n) = find_next_uint64_value(&lines, i + 1) {
                    meta.duration_us = n;
                }
            },
            Some(key) => {
                if let Some(value) = find_next_string_value(&lines, i + 1) {
                    match key {
                        Key::TrackId => meta.track_id = value,
                        Key::ArtUrl => meta.art_url = value,
                        Key::Title => meta.title = value,
                        Key::Album => meta.album = value,
                        Key::Artist => meta.artist = value,
                        Key::Length => {},
                    }
                }
            },
            None => {},
        }
    }
    if meta.track_id.as_str().is_empty() {
        Err(DbusError::NoTrackId)
    } else {
        Ok(meta)
    }
}

/// The text that metadata hold under a key.
pub open spec fn field(meta: MprisView, key: Key) -> Seq<char> {
    match key {
        Key::TrackId => meta.track_id,
        Key::ArtUrl => meta.art_url,
        Key::Title => meta.title,
        Key::Album => meta.album,
        Key::Artist => meta.artist,
        Key::Length => Seq::empty(),
    }
}

/// What the last line with a key is followed by is what is read for the key: the
/// other lines change nothing.
pub proof fn law_metadata_reads_fields(lines: Seq<Seq<char>>, i: int, key: Key, n: nat)
    requires
        0 <= i < n <= lines.len(),
        key_of(lines[i]) == Some(key),
        forall|j: int| i < j < n ==> key_of(#[trigger] lines[j]) != Some(key),
    ensures
        key == Key::Length ==> match number_within(lines, i + 1, REACH as nat) {
            Some(length) => metadata_in(lines, n).duration_us == length,
            None => metadata_in(lines, n).duration_us == metadata_in(lines, i as nat).duration_us,
        },
        key != Key::Length ==> match string_within(lines, i + 1, REACH as nat) {
            Some(value) => field(metadata_in(lines, n), key) == value,
            None => field(metadata_in(lines, n), key) == field(metadata_in(lines, i as nat), key),
        },
    decreases n,
{
    if n > i + 1 {
        law_metadata_reads_fields(lines, i, key, (n - 1) as nat);
        assert(key_of(lines[n - 1]) != Some(key));
    }
}

/// A key that no line names gives nothing.
pub proof fn law_metadata_without_key(lines: Seq<Seq<char>>, key: Key, n: nat)
    requires
        n <= lines.len(),
        forall|j: int| 0 <= j < n ==> key_of(#[trigger] lines[j]) != Some(key),
    ensures
        key == Key::Length ==> metadata_in(lines, n).duration_us == 0,
        key != Key::Length ==> field(metadata_in(lines, n), key).len() == 0,
    decreases n,
{
    if n > 0 {
        law_metadata_without_key(lines, key, (n - 1) as nat);
        assert(key_of(lines[n - 1]) != Some(key));
    }
}

// ---------------------------------------------------------------------------
// Metadata as dbus-send prints it
// ---------------------------------------------------------------------------

/// An entry of the metadata: its key, and the lines in which its value is printed.
pub struct Entry {
    pub key: Seq<char>,
    pub body: Seq<Seq<char>>,
}

/// The key of that name.
pub open spec fn key_named(name: Seq<char>) -> Option<Key> {
    if name == "mpris:trackid"@ {
        Some(Key::TrackId)
    } else if name == "mpris:length"@ {
        Some(Key::Length)
    } else if name == "mpris:artUrl"@ {
        Some(Key::ArtUrl)
    } else if name == "xesam:title"@ {
        Some(Key::Title)
    } else if name == "xesam:album"@ {
        Some(Key::Album)
    } else if name == "xesam:artist"@ {
        Some(Key::Artist)
    } else {
        None
    }
}

/// The line of a key.
pub open spec fn key_line(name: Seq<char>) -> Seq<char> {
    "            string \""@ + name + "\""@
}

/// The lines of an entry.
pub open spec fn entry_lines(entry: Entry) -> Seq<Seq<char>> {
    seq!["         dict entry("@, key_line(entry.key)] + entry.body + seq!["         )"@]
}

/// The lines of a list of entries.
pub open spec fn list_lines(entries: Seq<Entry>) -> Seq<Seq<char>>
    decreases entries.len(),
{
    if entries.len() == 0 {
        Seq::empty()
    } else {
        list_lines(entries.drop_last()) + entry_lines(entries.last())
    }
}

/// Lines that name no key that is read.
pub open spec fn silent(lines: Seq<Seq<char>>) -> bool {
    forall|i: int|
        0 <= i < lines.len() ==> text::on_one_line(#[trigger] lines[i]) && key_of(lines[i]) is None
}

/// An entry as it is printed: its key has no quote and no line feed, its lines name no
/// key that is read, and where its own key is one, they hold a value for it.
pub open spec fn printed(entry: Entry) -> bool {
    &&& !entry.key.contains('"') && !entry.key.contains('\n')
    &&& silent(entry.body)
    &&& key_named(entry.key) == Some(Key::Length) ==> number_within(entry.body, 0, REACH as nat)
        is Some
    &&& key_named(entry.key) is Some && key_named(entry.key) != Some(Key::Length)
        ==> string_within(entry.body, 0, REACH as nat) is Some
}

/// What is known once an entry has been read.
pub open spec fn with_entry(known: MprisView, entry: Entry) -> MprisView {
    let value = string_within(entry.body, 0, REACH as nat)->0;
    match key_named(entry.key) {
        Some(Key::Length) => MprisView {
            duration_us: number_within(entry.body, 0, REACH as nat)->0,
            ..known
        },
        Some(Key::TrackId) => MprisView { track_id: value, ..known },
        Some(Key::ArtUrl) => MprisView { art_url: value, ..known },
        Some(Key::Title) => MprisView { title: value, ..known },
        Some(Key::Album) => MprisView { album: value, ..known },
        Some(Key::Artist) => MprisView { artist: value, ..known },
        None => known,
    }
}

/// What a list of entries says of the track.
pub open spec fn metadata_of(entries: Seq<Entry>) -> MprisView
    decreases entries.len(),
{
    if entries.len() == 0 {
        no_metadata()
    } else {
        with_entry(metadata_of(entries.drop_last()), entries.last())
    }
}

/// The reply with these entries, between other lines.
pub open spec fn metadata_reply(
    head: Seq<Seq<char>>,
    entries: Seq<Entry>,
    tail: Seq<Seq<char>>,
) -> Seq<char> {
    text::unlines(head + list_lines(entries) + tail)
}

/// A text in quotes.
pub open spec fn quoted(s: Seq<char>) -> Seq<char> {
    seq!['"'] + s + seq!['"']
}

proof fn lemma_quoted(prefix: Seq<char>, k: Seq<char>, n: Seq<char>)
    requires
        !prefix.contains('"'),
        !k.contains('"'),
        !n.contains('"'),
    ensures
        text::occurs(prefix + quoted(k), quoted(n)) == (k == n),
{
    let whole = prefix + quoted(k);
    let p = prefix.len() as int;
    let end = p + k.len() + 1;
    assert forall|i: int| 0 <= i < whole.len() && whole[i] == '"' implies i == p || i == end by {
        if i < p {
            assert(prefix[i] == '"');
        } else if p < i < end {
            assert(k[i - p - 1] == '"');
        }
    }
    if k == n {
        assert(whole.subrange(p, p + quoted(n).len()) =~= quoted(n));
    }
    if text::occurs(whole, quoted(n)) {
        let i = choose|i: int|
            0 <= i && i + quoted(n).len() <= whole.len() && #[trigger] whole.subrange(
                i,
                i + quoted(n).len(),
            ) == quoted(n);
        let found = whole.subrange(i, i + quoted(n).len());
        assert(found[0] == '"');
        assert(found[n.len() as int + 1] == '"');
        assert(whole[i] == '"');
        assert(whole[i + n.len() + 1] == '"');
        assert(i == p);
        assert(k.len() == n.len());
        assert forall|j: int| 0 <= j < k.len() implies k[j] == n[j] by {
            assert(found[j + 1] == n[j]);
            assert(whole[i + j + 1] == k[j]);
        }
        assert(k =~= n);
    }
}

proof fn lemma_key_line(name: Seq<char>)
    requires
        !name.contains('"'),
        !name.contains('\n'),
    ensures
        key_of(key_line(name)) == key_named(name),
        text::on_one_line(key_line(name)),
{
    reveal_strlit("            string \"");
    reveal_strlit("\"");
    let line = key_line(name);
    let pad = line.take(12);
    let content = line.skip(12);
    assert(line =~= pad + content);
    text::lemma_trim_padded(pad, content);
    let prefix = content.take(7);
    assert(content =~= prefix + quoted(name));
    assert(!prefix.contains('"')) by {
        assert forall|i: int| 0 <= i < 7 implies prefix[i] != '"' by {}
    }
    assert(!line.contains('\n')) by {
        assert forall|i: int| 0 <= i < line.len() implies line[i] != '\n' by {
            if 20 <= i < 20 + name.len() {
                assert(line[i] == name[i - 20]);
            }
        }
    }
    lemma_names();
    lemma_quoted(prefix, name, "mpris:trackid"@);
    lemma_quoted(prefix, name, "mpris:length"@);
    lemma_quoted(prefix, name, "mpris:artUrl"@);
    lemma_quoted(prefix, name, "xesam:title"@);
    lemma_quoted(prefix, name, "xesam:album"@);
    lemma_quoted(prefix, name, "xesam:artist"@);
}

proof fn lemma_names()
    ensures
        "\"mpris:trackid\""@ == quoted("mpris:trackid"@),
        "\"mpris:length\""@ == quoted("mpris:length"@),
        "\"mpris:artUrl\""@ == quoted("mpris:artUrl"@),
        "\"xesam:title\""@ == quoted("xesam:title"@),
        "\"xesam:album\""@ == quoted("xesam:album"@),
        "\"xesam:artist\""@ == quoted("xesam:artist"@),
        !"mpris:trackid"@.contains('"'),
        !"mpris:length"@.contains('"'),
        !"mpris:artUrl"@.contains('"'),
        !"xesam:title"@.contains('"'),
        !"xesam:album"@.contains('"'),
        !"xesam:artist"@.contains('"'),
{
    reveal_strlit("\"mpris:trackid\"");
    reveal_strlit("\"mpris:length\"");
    reveal_strlit("\"mpris:artUrl\"");
    reveal_strlit("\"xesam:title\"");
    reveal_strlit("\"xesam:album\"");
    reveal_strlit("\"xesam:artist\"");
    reveal_strlit("mpris:trackid");
    reveal_strlit("mpris:length");
    reveal_strlit("mpris:artUrl");
    reveal_strlit("xesam:title");
    reveal_strlit("xesam:album");
    reveal_strlit("xesam:artist");
    assert("\"mpris:trackid\""@ =~= quoted("mpris:trackid"@));
    assert("\"mpris:length\""@ =~= quoted("mpris:length"@));
    assert("\"mpris:artUrl\""@ =~= quoted("mpris:artUrl"@));
    assert("\"xesam:title\""@ =~= quoted("xesam:title"@));
    assert("\"xesam:album\""@ =~= quoted("xesam:album"@));
    assert("\"xesam:artist\""@ =~= quoted("xesam:artist"@));
}

proof fn lemma_no_quote(line: Seq<char>)
    requires
        !line.contains('"'),
    ensures
        key_of(line) is None,
{
    let content = text::trim_white(line);
    text::lemma_trimmed(text::Charset::White, line);
    lemma_names();
    assert(!content.contains('"'));
    assert forall|n: Seq<char>| !#[trigger] text::occurs(content, quoted(n)) by {
        if text::occurs(content, quoted(n)) {
            let q = quoted(n);
            let i = choose|i: int|
                0 <= i && i + q.len() <= content.len() && #[trigger] content.subrange(
                    i,
                    i + q.len(),
                ) == q;
            assert(content.subrange(i, i + q.len())[0] == q[0]);
            assert(content[i] == '"');
        }
    }
}

proof fn lemma_brackets()
    ensures
        key_of("         dict entry("@) is None,
        key_of("         )"@) is None,
        text::on_one_line("         dict entry("@),
        text::on_one_line("         )"@),
{
    reveal_strlit("         dict entry(");
    reveal_strlit("         )");
    lemma_no_quote("         dict entry("@);
    lemma_no_quote("         )"@);
}

proof fn lemma_silent_lines(lines: Seq<Seq<char>>, n: nat, m: nat)
    requires
        n <= m <= lines.len(),
        forall|j: int| n <= j < m ==> key_of(#[trigger] lines[j]) is None,
    ensures
        metadata_in(lines, m) == metadata_in(lines, n),
    decreases m,
{
    if m > n {
        lemma_silent_lines(lines, n, (m - 1) as nat);
        assert(key_of(lines[m - 1]) is None);
    }
}

proof fn lemma_value_within(
    lines: Seq<Seq<char>>,
    start: int,
    body: Seq<Seq<char>>,
    k: int,
    left: nat,
)
    requires
        0 <= start,
        start + body.len() <= lines.len(),
        forall|j: int| 0 <= j < body.len() ==> #[trigger] lines[start + j] == body[j],
        0 <= k,
    ensures
        string_within(body, k, left) is Some ==> string_within(lines, start + k, left)
            == string_within(body, k, left),
        number_within(body, k, left) is Some ==> number_within(lines, start + k, left)
            == number_within(body, k, left),
    decreases left,
{
    if left > 0 && k < body.len() {
        assert(lines[start + k] == body[k]);
        lemma_value_within(lines, start, body, k + 1, (left - 1) as nat);
    }
}

proof fn lemma_entries(head: Seq<Seq<char>>, entries: Seq<Entry>, rest: Seq<Seq<char>>)
    requires
        silent(head),
        forall|i: int| 0 <= i < entries.len() ==> printed(#[trigger] entries[i]),
    ensures
        metadata_in(
            head + list_lines(entries) + rest,
            (head.len() + list_lines(entries).len()) as nat,
        ) == metadata_of(entries),
    decreases entries.len(),
{
    let lines = head + list_lines(entries) + rest;
    if entries.len() == 0 {
        assert forall|j: int| 0 <= j < head.len() implies key_of(#[trigger] lines[j]) is None by {
            assert(lines[j] == head[j]);
        }
        lemma_silent_lines(lines, 0, head.len());
    } else {
        let before = entries.drop_last();
        let entry = entries.last();
        assert(printed(entries[entries.len() - 1]));
        assert forall|i: int| 0 <= i < before.len() implies printed(#[trigger] before[i]) by {
            assert(printed(entries[i]));
        }
        lemma_entries(head, before, entry_lines(entry) + rest);
        assert(lines =~= head + list_lines(before) + (entry_lines(entry) + rest));
        let at: int = (head.len() + list_lines(before).len()) as int;
        let size = entry_lines(entry).len();
        let body = entry.body;
        assert(forall|j: int| 0 <= j < size ==> #[trigger] lines[at + j] == entry_lines(entry)[j]);
        lemma_brackets();
        lemma_key_line(entry.key);
        assert(lines[at] == "         dict entry("@) by {
            assert(lines[at + 0] == entry_lines(entry)[0]);
        }
        assert(lines[at + 1] == key_line(entry.key));
        lemma_silent_lines(lines, at as nat, (at + 1) as nat);
        assert forall|j: int| 0 <= j < body.len() implies #[trigger] lines[at + 2 + j]
            == body[j] by {
            assert(lines[at + (2 + j)] == entry_lines(entry)[2 + j]);
        }
        lemma_value_within(lines, at + 2, body, 0, REACH as nat);
        assert(metadata_in(lines, (at + 2) as nat) == with_entry(metadata_of(before), entry));
        assert forall|j: int| at + 2 <= j < at + size implies key_of(#[trigger] lines[j])
            is None by {
            if j < at + size - 1 {
                assert(lines[at + 2 + (j - at - 2)] == body[j - at - 2]);
            } else {
                assert(lines[at + (size - 1)] == entry_lines(entry)[size - 1]);
            }
        }
        lemma_silent_lines(lines, (at + 2) as nat, (at + size) as nat);
    }
}

proof fn lemma_lines_plain(entries: Seq<Entry>)
    requires
        forall|i: int| 0 <= i < entries.len() ==> printed(#[trigger] entries[i]),
    ensures
        forall|i: int|
            0 <= i < list_lines(entries).len() ==> text::on_one_line(
                #[trigger] list_lines(entries)[i],
            ),
    decreases entries.len(),
{
    if entries.len() > 0 {
        let before = entries.drop_last();
        let entry = entries.last();
        assert(printed(entries[entries.len() - 1]));
        assert forall|i: int| 0 <= i < before.len() implies printed(#[trigger] before[i]) by {
            assert(printed(entries[i]));
        }
        lemma_lines_plain(before);
        lemma_brackets();
        lemma_key_line(entry.key);
        let n = list_lines(before).len();
        assert forall|i: int| 0 <= i < list_lines(entries).len() implies text::on_one_line(
            #[trigger] list_lines(entries)[i],
        ) by {
            if i >= n {
                let j = i - n;
                assert(list_lines(entries)[i] == entry_lines(entry)[j]);
                if 2 <= j < 2 + entry.body.len() {
                    assert(entry_lines(entry)[j] == entry.body[j - 2]);
                }
            } else {
                assert(list_lines(entries)[i] == list_lines(before)[i]);
            }
        }
    }
}

/// A reply says of the track what its entries say; the lines around them say
/// nothing.
pub proof fn law_entries_are_read(
    head: Seq<Seq<char>>,
    entries: Seq<Entry>,
    tail: Seq<Seq<char>>,
)
    requires
        silent(head),
        silent(tail),
        forall|i: int| 0 <= i < entries.len() ==> printed(#[trigger] entries[i]),
    ensures
        reply_metadata(metadata_reply(head, entries, tail)) == metadata_of(entries),
{
    let lines = head + list_lines(entries) + tail;
    let n = (head.len() + list_lines(entries).len()) as nat;
    lemma_entries(head, entries, tail);
    lemma_lines_plain(entries);
    assert forall|j: int| n <= j < lines.len() implies key_of(#[trigger] lines[j]) is None by {
        assert(lines[j] == tail[j - n]);
    }
    lemma_silent_lines(lines, n, lines.len());
    assert forall|j: int| 0 <= j < lines.len() implies text::on_one_line(#[trigger] lines[j]) by {
        if j < head.len() {
            assert(lines[j] == head[j]);
        } else if j < n {
            assert(lines[j] == list_lines(entries)[j - head.len()]);
        } else {
            assert(lines[j] == tail[j - n]);
        }
    }
    text::law_lines_read_back(lines);
}

/// A value that stands on a line and holds, with its quotes, none of the keys that are
/// read.
pub open spec fn plain_value(value: Seq<char>) -> bool {
    &&& !value.contains('\n')
    &&& forall|name: Seq<char>| #[trigger]
        key_named(name) is Some ==> !text::occurs(quoted(value), quoted(name))
}

/// The lines of a value that is a string.
pub open spec fn text_body(value: Seq<char>) -> Seq<Seq<char>> {
    seq!["            variant               string "@ + quoted(value)]
}

/// The lines of a value that is a number.
pub open spec fn number_body(n: nat) -> Seq<Seq<char>> {
    seq!["            variant               uint64 "@ + text::decimal(n)]
}

/// The lines of a value that is a list of strings.
pub open spec fn list_body(values: Seq<Seq<char>>) -> Seq<Seq<char>> {
    seq!["            variant               array ["@] + values.map_values(
        |value: Seq<char>| "                  string "@ + quoted(value),
    ) + seq!["               ]"@]
}

proof fn lemma_silent_value(prefix: Seq<char>, value: Seq<char>)
    requires
        !prefix.contains('"'),
        !prefix.contains('\n'),
        plain_value(value),
    ensures
        key_of(prefix + quoted(value)) is None,
        text::on_one_line(prefix + quoted(value)),
{
    let line = prefix + quoted(value);
    assert(line.last() == '"');
    assert(!line.contains('\n')) by {
        assert forall|i: int| 0 <= i < line.len() implies line[i] != '\n' by {
            if i < prefix.len() {
                assert(prefix.contains(prefix[i]));
            } else if prefix.len() < i < line.len() - 1 {
                assert(value.contains(value[i - prefix.len() - 1]));
                assert(line[i] == value[i - prefix.len() - 1]);
            }
        }
    }
    lemma_names();
    let content = text::trim_white(line);
    // White space is dropped at the front only, so the quotes stay.
    lemma_trim_front(prefix, quoted(value));
    let front = choose|front: Seq<char>|
        content == #[trigger] (front + quoted(value)) && !front.contains('"');
    assert forall|name: Seq<char>| #[trigger] key_named(name) is Some implies !text::occurs(
        content,
        quoted(name),
    ) by {
        if text::occurs(content, quoted(name)) {
            let q = quoted(name);
            let i = choose|i: int|
                0 <= i && i + q.len() <= content.len() && #[trigger] content.subrange(
                    i,
                    i + q.len(),
                ) == q;
            assert(content.subrange(i, i + q.len())[0] == '"');
            if i < front.len() {
                assert(front.contains(front[i]));
            }
            let k = i - front.len();
            assert(quoted(value).subrange(k, k + q.len()) =~= content.subrange(i, i + q.len()));
        }
    }
    assert(key_named("mpris:trackid"@) is Some);
    assert(key_named("mpris:length"@) is Some);
    assert(key_named("mpris:artUrl"@) is Some);
    assert(key_named("xesam:title"@) is Some);
    assert(key_named("xesam:album"@) is Some);
    assert(key_named("xesam:artist"@) is Some);
}

proof fn lemma_trim_front(prefix: Seq<char>, rest: Seq<char>)
    requires
        !prefix.contains('"'),
        rest.len() > 0,
        !text::white_space(rest[0]),
        !text::white_space(rest.last()),
    ensures
        exists|front: Seq<char>|
            text::trim_white(prefix + rest) == #[trigger] (front + rest) && !front.contains('"'),
    decreases prefix.len(),
{
    let line = prefix + rest;
    if prefix.len() > 0 && text::white_space(prefix[0]) {
        let shorter = prefix.drop_first();
        assert(!shorter.contains('"')) by {
            assert forall|i: int| 0 <= i < shorter.len() implies shorter[i] != '"' by {
                assert(prefix.contains(prefix[i + 1]));
            }
        }
        lemma_trim_front(shorter, rest);
        assert(line.drop_first() =~= shorter + rest);
    } else {
        if prefix.len() == 0 {
            assert(line =~= rest);
        }
        assert(line.last() == rest.last());
        assert(text::trim_white(line) == prefix + rest);
    }
}

/// A string that `dbus-send` prints is the value of its entry.
pub proof fn law_text_is_printed(key: Seq<char>, value: Seq<char>)
    requires
        !key.contains('"'),
        !key.contains('\n'),
        key_named(key) != Some(Key::Length),
        plain_value(value),
    ensures
        printed(Entry { key, body: text_body(value) }),
        string_within(text_body(value), 0, REACH as nat) == Some(value),
{
    reveal_strlit("            variant               string ");
    reveal_strlit("string \"");
    reveal_strlit("\"");
    let prefix = "            variant               string "@;
    lemma_no_special(prefix);
    lemma_silent_value(prefix, value);
    let content = "string \""@ + value + "\""@;
    let line = prefix + quoted(value);
    lemma_after_variant(prefix.take(12), prefix.subrange(19, 34), content);
    assert(line =~= prefix.take(12) + "variant"@ + prefix.subrange(19, 34) + content) by {
        reveal_strlit("variant");
    }
    lemma_string_content(value);
    assert(after_variant_quote(line) == Some(value + "\""@));
    assert((value + "\""@).take(value.len() as int) =~= value);
    assert("\""@.is_suffix_of(value + "\""@));
    assert(text_body(value)[0] == line);
}

/// A number that `dbus-send` prints is the value of its entry.
pub proof fn law_number_is_printed(key: Seq<char>, n: u64)
    requires
        !key.contains('"'),
        !key.contains('\n'),
        key_named(key) is None || key_named(key) == Some(Key::Length),
    ensures
        printed(Entry { key, body: number_body(n as nat) }),
        number_within(number_body(n as nat), 0, REACH as nat) == Some(n),
{
    reveal_strlit("            variant               uint64 ");
    reveal_strlit("uint64 ");
    reveal_strlit("int64 ");
    let prefix = "            variant               uint64 "@;
    let digits = text::decimal(n as nat);
    let line = prefix + digits;
    text::lemma_decimal_digits(n as nat);
    text::law_decimal_reads_back(n as nat, u64::MAX as nat);
    lemma_no_special(prefix);
    assert forall|i: int| 0 <= i < line.len() implies line[i] != '"' && line[i] != '\n' by {
        if i >= prefix.len() {
            assert(text::is_digit(digits[i - prefix.len()]));
        } else {
            assert(prefix.contains(prefix[i]));
        }
    }
    lemma_no_quote(line);
    assert(line.last() == digits.last());
    let content = "uint64 "@ + digits;
    assert(content.last() == digits.last());
    lemma_after_variant(prefix.take(12), prefix.subrange(19, 34), content);
    assert(line =~= prefix.take(12) + "variant"@ + prefix.subrange(19, 34) + content) by {
        reveal_strlit("variant");
    }
    assert(content[0] == 'u');
    assert("uint64 "@.is_prefix_of(content));
    assert(content.skip(7) =~= Seq::empty() + digits);
    text::lemma_trim_padded(Seq::empty(), digits);
    assert(number_body(n as nat)[0] == line);
}

/// A list of strings that `dbus-send` prints has its first string as the value of its
/// entry.
pub proof fn law_list_is_printed(key: Seq<char>, values: Seq<Seq<char>>)
    requires
        !key.contains('"'),
        !key.contains('\n'),
        key_named(key) != Some(Key::Length),
        values.len() > 0,
        forall|i: int| 0 <= i < values.len() ==> plain_value(#[trigger] values[i]),
    ensures
        printed(Entry { key, body: list_body(values) }),
        string_within(list_body(values), 0, REACH as nat) == Some(values[0]),
{
    reveal_strlit("            variant               array [");
    reveal_strlit("                  string ");
    reveal_strlit("               ]");
    reveal_strlit("array [");
    reveal_strlit("string");
    reveal_strlit("string \"");
    reveal_strlit("variant");
    reveal_strlit("\"");
    let open = "            variant               array ["@;
    let indent = "                  string "@;
    let close = "               ]"@;
    let body = list_body(values);
    lemma_no_special(open);
    lemma_no_special(indent);
    lemma_no_special(close);
    lemma_no_quote(open);
    lemma_no_quote(close);
    assert forall|i: int| 0 <= i < body.len() implies text::on_one_line(#[trigger] body[i])
        && key_of(body[i]) is None by {
        if 1 <= i <= values.len() {
            assert(plain_value(values[i - 1]));
            assert(body[i] == indent + quoted(values[i - 1]));
            lemma_silent_value(indent, values[i - 1]);
        }
    }
    // The line that opens the list holds no string, and the next one holds the first.
    let content = "array ["@;
    lemma_after_variant(open.take(12), open.subrange(19, 34), content);
    assert(open =~= open.take(12) + "variant"@ + open.subrange(19, 34) + content);
    assert(after_variant_quote(open) is None) by {
        if "string"@.is_prefix_of(content) {
            assert(content[0] == "string"@[0]);
        }
    }
    let rest = open.skip(12);
    assert(open =~= open.take(12) + rest);
    text::lemma_trim_padded(open.take(12), rest);
    assert(rest[0] == 'v');
    assert(bare_string(open) is None);
    let value = values[0];
    let line = indent + quoted(value);
    let said = "string "@ + quoted(value);
    reveal_strlit("string ");
    assert(line =~= indent.take(18) + said);
    assert(said.last() == '"');
    text::lemma_trim_padded(indent.take(18), said);
    assert(said[0] == 's');
    assert(after_variant(line) is None);
    assert("string \""@.is_prefix_of(said));
    assert(said.skip(8) =~= value + "\""@);
    assert("\""@.is_suffix_of(value + "\""@));
    assert((value + "\""@).take(value.len() as int) =~= value);
    assert(bare_string(line) == Some(value));
    assert(body[0] == open);
    assert(body[1] == line);
    reveal_with_fuel(string_within, 3);
}

proof fn lemma_no_special(s: Seq<char>)
    requires
        forall|i: int| 0 <= i < s.len() ==> #[trigger] s[i] != '"' && s[i] != '\n' && s[i] != '\r',
    ensures
        !s.contains('"'),
        !s.contains('\n'),
        text::on_one_line(s),
{
}

/// No key is given twice.
pub open spec fn keys_differ(entries: Seq<Entry>) -> bool {
    forall|i: int, j: int|
        0 <= i < j < entries.len() ==> (#[trigger] entries[i]).key != (#[trigger] entries[j]).key
}

/// The value that an entry with a key gives, or nothing.
spec fn holds(meta: MprisView, entries: Seq<Entry>, key: Key) -> bool {
    &&& forall|i: int|
        0 <= i < entries.len() && key_named((#[trigger] entries[i]).key) == Some(key) ==> if key
            == Key::Length {
            meta.duration_us == number_within(entries[i].body, 0, REACH as nat)->0
        } else {
            field(meta, key) == string_within(entries[i].body, 0, REACH as nat)->0
        }
    &&& (forall|i: int|
        0 <= i < entries.len() ==> key_named((#[trigger] entries[i]).key) != Some(key)) ==> if key
        == Key::Length {
        meta.duration_us == 0
    } else {
        field(meta, key) == Seq::<char>::empty()
    }
}

proof fn lemma_holds(entries: Seq<Entry>, key: Key)
    requires
        keys_differ(entries),
    ensures
        holds(metadata_of(entries), entries, key),
    decreases entries.len(),
{
    if entries.len() > 0 {
        let before = entries.drop_last();
        let last = entries.len() - 1;
        assert(keys_differ(before)) by {
            assert forall|i: int, j: int| 0 <= i < j < before.len() implies (
            #[trigger] before[i]).key != (#[trigger] before[j]).key by {
                assert(entries[i].key != entries[j].key);
            }
        }
        lemma_holds(before, key);
        assert forall|i: int|
            0 <= i < entries.len() && key_named((#[trigger] entries[i]).key) == Some(key) implies if key
            == Key::Length {
            metadata_of(entries).duration_us == number_within(
                entries[i].body,
                0,
                REACH as nat,
            )->0
        } else {
            field(metadata_of(entries), key) == string_within(
                entries[i].body,
                0,
                REACH as nat,
            )->0
        } by {
            if i < last {
                assert(before[i] == entries[i]);
                assert(entries[i].key != entries[last].key);
                lemma_key_names_differ(entries[i].key, entries[last].key);
            }
        }
        if forall|i: int|
            0 <= i < entries.len() ==> key_named((#[trigger] entries[i]).key) != Some(key) {
            assert(key_named(entries[last].key) != Some(key));
            assert forall|i: int| 0 <= i < before.len() implies key_named(
                (#[trigger] before[i]).key,
            ) != Some(key) by {
                assert(key_named(entries[i].key) != Some(key));
            }
        }
    }
}

proof fn lemma_key_names_differ(a: Seq<char>, b: Seq<char>)
    requires
        a != b,
        key_named(a) is Some,
    ensures
        key_named(a) != key_named(b),
{
}

proof fn lemma_same_field(a: Seq<Entry>, b: Seq<Entry>, key: Key)
    requires
        keys_differ(a),
        keys_differ(b),
        forall|e: Entry| key_named(e.key) is Some ==> (a.contains(e) <==> b.contains(e)),
    ensures
        key == Key::Length ==> metadata_of(a).duration_us == metadata_of(b).duration_us,
        key != Key::Length ==> field(metadata_of(a), key) == field(metadata_of(b), key),
{
    lemma_holds(a, key);
    lemma_holds(b, key);
    if exists|i: int| 0 <= i < a.len() && key_named((#[trigger] a[i]).key) == Some(key) {
        let i = choose|i: int| 0 <= i < a.len() && key_named((#[trigger] a[i]).key) == Some(key);
        assert(a.contains(a[i]));
        assert(b.contains(a[i]));
        let j = choose|j: int| 0 <= j < b.len() && b[j] == a[i];
        assert(key_named(b[j].key) == Some(key));
    } else {
        assert forall|j: int| 0 <= j < b.len() implies key_named((#[trigger] b[j]).key) != Some(
            key,
        ) by {
            if key_named(b[j].key) == Some(key) {
                assert(b.contains(b[j]));
                assert(a.contains(b[j]));
                let i = choose|i: int| 0 <= i < a.len() && a[i] == b[j];
                assert(key_named(a[i].key) == Some(key));
            }
        }
    }
}

/// Two replies whose entries have no key twice and which have the same entries for the
/// six keys that are read say the same of the track: neither the order of the entries,
/// nor entries with other keys, nor the lines around them make a difference.
pub proof fn law_entry_order_changes_nothing(
    head1: Seq<Seq<char>>,
    entries1: Seq<Entry>,
    tail1: Seq<Seq<char>>,
    head2: Seq<Seq<char>>,
    entries2: Seq<Entry>,
    tail2: Seq<Seq<char>>,
)
    requires
        silent(head1),
        silent(tail1),
        silent(head2),
        silent(tail2),
        forall|i: int| 0 <= i < entries1.len() ==> printed(#[trigger] entries1[i]),
        forall|i: int| 0 <= i < entries2.len() ==> printed(#[trigger] entries2[i]),
        keys_differ(entries1),
        keys_differ(entries2),
        forall|e: Entry|
            key_named(e.key) is Some ==> (entries1.contains(e) <==> entries2.contains(e)),
    ensures
        reply_metadata(metadata_reply(head1, entries1, tail1)) == reply_metadata(
            metadata_reply(head2, entries2, tail2),
        ),
{
    law_entries_are_read(head1, entries1, tail1);
    law_entries_are_read(head2, entries2, tail2);
    lemma_same_field(entries1, entries2, Key::TrackId);
    lemma_same_field(entries1, entries2, Key::Length);
    lemma_same_field(entries1, entries2, Key::ArtUrl);
    lemma_same_field(entries1, entries2, Key::Title);
    lemma_same_field(entries1, entries2, Key::Album);
    lemma_same_field(entries1, entries2, Key::Artist);
}

impl Default for MprisMetadata {
    /// Nothing is known of the track.
    fn default() -> (r: Self)
        ensures
            r@ == no_metadata(),
    {
        MprisMetadata {
            track_id: String::new(),
            title: String::new(),
            artist: String::new(),
            album: String::new(),
            art_url: String::new(),
            duration_us: 0,
        }
    }
}

/// What follows the prefix of Spotify's object paths.
pub open spec fn short_id(track_id: Seq<char>) -> Option<Seq<char>> {
    text::after_prefix(track_id, "/com/spotify/track/"@)
}

/// The identifier of a track: twenty-two ASCII letters and digits.
pub open spec fn valid_id(id: Seq<char>) -> bool {
    id.len() == 22 && text::all_alphanumeric(id)
}

/// The URI of the track that an object path names.
pub open spec fn uri_of(track_id: Seq<char>) -> Option<Seq<char>> {
    match short_id(track_id) {
        Some(id) => if valid_id(id) {
            Some("spotify:track:"@ + id)
        } else {
            None
        },
        None => None,
    }
}

impl MprisMetadata {
    /// The length of the track in whole milliseconds.
    pub fn duration_ms(&self) -> (r: u64)
        ensures
            r == self.duration_us / 1000,
    {
        self.duration_us / 1000
    }

    /// The URI of the track. Its object path looks like
    /// `/com/spotify/track/XXXXX`.
    pub fn spotify_uri(&self) -> (r: Option<String>)
        ensures
            match r {
                Some(uri) => uri_of(self.track_id@) == Some(uri@),
                None => uri_of(self.track_id@) is None,
            },
    {
        let path = text::chars_of(self.track_id.as_str());
        match text::strip_prefix(path.as_slice(), "/com/spotify/track/") {
            Some(id) => {
                if id.len() == 22 && text::is_alphanumeric(id) {
                    let id = text::string_of(id);
                    Some("spotify:track:".to_owned().concat(id.as_str()))
                } else {
                    None
                }
            },
            None => None,
        }
    }

    /// The last part of the object path of the track.
    pub fn track_id_short(&self) -> (r: Option<&str>)
        ensures
            match r {
                Some(id) => short_id(self.track_id@) == Some(id@),
                None => short_id(self.track_id@) is None,
            },
    {
        let path = text::chars_of(self.track_id.as_str());
        match text::strip_prefix(path.as_slice(), "/com/spotify/track/") {
            Some(id) => {
                let rest = self.track_id.as_str().substring_char(path.len() - id.len(), path.len());
                assert(rest@ =~= id@);
                Some(rest)
            },
            None => None,
        }
    }
}

// ---------------------------------------------------------------------------
// Requests
// ---------------------------------------------------------------------------

/// The arguments of a `dbus-send` call of `member` at Spotify's player object,
/// with further arguments.
pub open spec fn player_call(member: Seq<char>, further: Seq<Seq<char>>) -> Seq<Seq<char>> {
    seq![
        "--print-reply"@,
        "--dest=org.mpris.MediaPlayer2.spotify"@,
        "/org/mpris/MediaPlayer2"@,
        member,
    ] + further
}

/// The arguments of a `dbus-send` call of a method of the player.
pub open spec fn method_call(method: Seq<char>, further: Seq<Seq<char>>) -> Seq<Seq<char>> {
    player_call("org.mpris.MediaPlayer2.Player."@ + method, further)
}

/// The arguments of the `dbus-send` call that reads a property of the player.
pub open spec fn property_call(name: Seq<char>) -> Seq<Seq<char>> {
    player_call(
        "org.freedesktop.DBus.Properties.Get"@,
        seq!["string:org.mpris.MediaPlayer2.Player"@, "string:"@ + name],
    )
}

/// A call of `member` at the player object.
fn player_request(member: &str, further: &[&str]) -> (r: Vec<String>)
    ensures
        text::views(r@) == player_call(member@, text::slices(further@)),
{
    let mut out = text::list(
        &[
            "--print-reply",
            "--dest=org.mpris.MediaPlayer2.spotify",
            "/org/mpris/MediaPlayer2",
            member,
        ],
    );
    assert(text::views(out@) =~= player_call(member@, Seq::empty()));
    let ghost head = out@;
    let mut rest = text::list(further);
    let ghost tail = rest@;
    out.append(&mut rest);
    assert(text::views(out@) =~= text::views(head) + text::views(tail));
    assert(text::views(out@) =~= player_call(member@, text::slices(further@)));
    out
}

/// A call of a method of the player.
fn method_request(method: &str, further: &[&str]) -> (r: Vec<String>)
    ensures
        text::views(r@) == method_call(method@, text::slices(further@)),
{
    let member = "org.mpris.MediaPlayer2.Player.".to_owned().concat(method);
    player_request(member.as_str(), further)
}

/// A call of a method of the player without arguments.
pub fn player_method(method: &str) -> (r: Vec<String>)
    ensures
        text::views(r@) == method_call(method@, Seq::empty()),
{
    let r = method_request(method, &[]);
    assert(text::views(r@) =~= method_call(method@, Seq::empty()));
    r
}

/// The call that pauses playback.
pub fn pause() -> (r: Vec<String>)
    ensures
        text::views(r@) == method_call("Pause"@, Seq::empty()),
{
    player_method("Pause")
}

/// The call that resumes playback.
pub fn play() -> (r: Vec<String>)
    ensures
        text::views(r@) == method_call("Play"@, Seq::empty()),
{
    player_method("Play")
}

/// The call that reads a property of the player.
pub fn get_property(name: &str) -> (r: Vec<String>)
    ensures
        text::views(r@) == property_call(name@),
{
    let wanted = "string:".to_owned().concat(name);
    let r = player_request(
        "org.freedesktop.DBus.Properties.Get",
        &["string:org.mpris.MediaPlayer2.Player", wanted.as_str()],
    );
    assert(text::views(r@) =~= property_call(name@));
    r
}

/// What may be opened: a track URI, or a link to Spotify's web player.
pub open spec fn openable(uri: Seq<char>) -> bool {
    "spotify:track:"@.is_prefix_of(uri) || "https://open.spotify.com/"@.is_prefix_of(uri)
}

/// The call that opens a track and plays it from the beginning.
pub fn open_uri(uri: &str) -> (r: Result<Vec<String>, DbusError>)
    ensures
        match r {
            Ok(args) => openable(uri@) && text::views(args@) == method_call(
                "OpenUri"@,
                seq!["string:"@ + uri@],
            ),
            Err(e) => !openable(uri@) && e == DbusError::NotSpotify,
        },
{
    let cs = text::chars_of(uri);
    if text::starts_with(cs.as_slice(), "spotify:track:") || text::starts_with(
        cs.as_slice(),
        "https://open.spotify.com/",
    ) {
        let what = "string:".to_owned().concat(uri);
        let r = method_request("OpenUri", &[what.as_str()]);
        assert(text::views(r@) =~= method_call("OpenUri"@, seq!["string:"@ + uri@]));
        Ok(r)
    } else {
        Err(DbusError::NotSpotify)
    }
}

/// The call that moves to the start of the track that `meta` describes: it
/// takes the object path of the track and a position in microseconds.
pub fn seek_to_start(meta: &MprisMetadata) -> (r: Vec<String>)
    ensures
        text::views(r@) == method_call(
            "SetPosition"@,
            seq!["objpath:"@ + meta.track_id@, "int64:0"@],
        ),
{
    let track = "objpath:".to_owned().concat(meta.track_id.as_str());
    let r = method_request("SetPosition", &[track.as_str(), "int64:0"]);
    assert(text::views(r@) =~= method_call(
        "SetPosition"@,
        seq!["objpath:"@ + meta.track_id@, "int64:0"@],
    ));
    r
}

/// The call that asks whether Spotify is on the bus.
pub fn running_request() -> (r: Vec<String>)
    ensures
        text::views(r@) == seq![
            "--print-reply"@,
            "--dest=org.freedesktop.DBus"@,
            "/org/freedesktop/DBus"@,
            "org.freedesktop.DBus.NameHasOwner"@,
            "string:org.mpris.MediaPlayer2.spotify"@,
        ],
{
    let r = text::list(
        &[
            "--print-reply",
            "--dest=org.freedesktop.DBus",
            "/org/freedesktop/DBus",
            "org.freedesktop.DBus.NameHasOwner",
            "string:org.mpris.MediaPlayer2.spotify",
        ],
    );
    assert(text::views(r@) =~= seq![
        "--print-reply"@,
        "--dest=org.freedesktop.DBus"@,
        "/org/freedesktop/DBus"@,
        "org.freedesktop.DBus.NameHasOwner"@,
        "string:org.mpris.MediaPlayer2.spotify"@,
    ]);
    r
}

// ---------------------------------------------------------------------------
// What came of a call
// ---------------------------------------------------------------------------

/// The reply that `dbus-send` printed, if it ended with success; otherwise what
/// it complained of.
pub fn dbus_send_raw(success: bool, stdout: &[u8], stderr: &[u8]) -> (r: Result<
    String,
    DbusError,
>)
    ensures
        match r {
            Ok(reply) => success && reply@ == codec::utf8_lossy(stdout@),
            Err(DbusError::Call(words)) => !success && words@ == "D-Bus call failed: "@
                + text::trim_white(codec::utf8_lossy(stderr@)),
            Err(_) => false,
        },
{
    if success {
        return Ok(codec::read_lossy(stdout));
    }
    let said = codec::read_lossy(stderr);
    let said = text::chars_of(said.as_str());
    let said = text::string_of(text::trim(text::Charset::White, said.as_slice()));
    Err(DbusError::Call("D-Bus call failed: ".to_owned().concat(said.as_str())))
}

/// Whether a method of the player was called, going by how `dbus-send` ended and
/// what it complained of.
pub fn method_outcome(method: &str, success: bool, stderr: &[u8]) -> (r: Result<(), DbusError>)
    ensures
        match r {
            Ok(_) => success,
            Err(DbusError::Call(words)) => !success && words@ == "Spotify "@ + method@
                + " failed: "@ + codec::utf8_lossy(stderr@),
            Err(_) => false,
        },
{
    if success {
        return Ok(());
    }
    let said = codec::read_lossy(stderr);
    Err(
        DbusError::Call(
            "Spotify ".to_owned().concat(method).concat(" failed: ").concat(said.as_str()),
        ),
    )
}

/// Whether the track was taken to its start, going by how `dbus-send` ended and
/// what it complained of.
pub fn seek_outcome(success: bool, stderr: &[u8]) -> (r: Result<(), DbusError>)
    ensures
        match r {
            Ok(_) => success,
            Err(DbusError::Call(words)) => !success && words@ == "Seek to start failed: "@
                + codec::utf8_lossy(stderr@),
            Err(_) => false,
        },
{
    if success {
        return Ok(());
    }
    let said = codec::read_lossy(stderr);
    Err(DbusError::Call("Seek to start failed: ".to_owned().concat(said.as_str())))
}

// ---------------------------------------------------------------------------
// Replies
// ---------------------------------------------------------------------------

/// Whether a reply says that Spotify is on the bus.
pub fn says_running(reply: &str) -> (r: bool)
    ensures
        r == text::occurs(reply@, "boolean true"@),
{
    let cs = text::chars_of(reply);
    text::contains(cs.as_slice(), "boolean true")
}

/// Whether Spotify is on the bus, given what `dbus-send` printed when it was asked,
/// if it ran.
pub fn is_spotify_running(stdout: Option<&[u8]>) -> (r: bool)
    ensures
        r == (stdout is Some && text::occurs(codec::utf8_lossy(stdout->0@), "boolean true"@)),
{
    match stdout {
        Some(stdout) => says_running(codec::read_lossy(stdout).as_str()),
        None => false,
    }
}

/// The playback status that a word names. Anything else counts as stopped.
pub open spec fn status_named(word: Seq<char>) -> PlaybackStatus {
    if word == "Playing"@ {
        PlaybackStatus::Playing
    } else if word == "Paused"@ {
        PlaybackStatus::Paused
    } else {
        PlaybackStatus::Stopped
    }
}

/// The current playback status, read off the reply for `PlaybackStatus`.
pub fn get_playback_status(reply: Result<String, DbusError>) -> (r: Result<
    PlaybackStatus,
    DbusError,
>)
    ensures
        match reply {
            Ok(reply) => r == Ok::<PlaybackStatus, DbusError>(
                status_named(reply_string(reply@)),
            ),
            Err(e) => r == Err::<PlaybackStatus, DbusError>(e),
        },
{
    match reply {
        Ok(reply) => {
            let word = extract_string_variant(reply.as_str());
            if text::same(word.as_str(), "Playing") {
                Ok(PlaybackStatus::Playing)
            } else if text::same(word.as_str(), "Paused") {
                Ok(PlaybackStatus::Paused)
            } else {
                Ok(PlaybackStatus::Stopped)
            }
        },
        Err(e) => Err(e),
    }
}

/// The current playback position in microseconds, read off the reply for
/// `Position`.
pub fn get_position(reply: Result<String, DbusError>) -> (r: Result<u64, DbusError>)
    ensures
        match reply {
            Ok(reply) => r == reply_number(reply@),
            Err(e) => r == Err::<u64, DbusError>(e),
        },
{
    match reply {
        Ok(reply) => extract_int64(reply.as_str()),
        Err(e) => Err(e),
    }
}

/// The metadata of the loaded track, read off the reply for `Metadata`.
pub fn get_metadata(reply: Result<String, DbusError>) -> (r: Result<MprisMetadata, DbusError>)
    ensures
        match reply {
            Ok(reply) => match r {
                Ok(meta) => meta@ == reply_metadata(reply@) && meta@.track_id.len() > 0,
                Err(e) => e == DbusError::NoTrackId && reply_metadata(reply@).track_id.len() == 0,
            },
            Err(e) => r == Err::<MprisMetadata, DbusError>(e),
        },
{
    match reply {
        Ok(reply) => parse_metadata(reply.as_str()),
        Err(e) => Err(e),
    }
}

// ---------------------------------------------------------------------------
// Waiting for a track to start
// ---------------------------------------------------------------------------

/// What to do while waiting for a track to start.
#[derive(Clone, Copy, Debug, PartialEq, Eq, Structural)]
pub enum Waiting {
    /// The track plays.
    Started,
    /// It took too long.
    TimedOut,
    /// Ask again in a moment.
    Again,
}

impl Waiting {
    /// What the wait comes to, once it is over.
    pub fn outcome(self) -> (r: Option<Result<(), DbusError>>)
        ensures
            r == (match self {
                Waiting::Started => Some(Ok::<(), DbusError>(())),
                Waiting::TimedOut => Some(Err(DbusError::NotStarted)),
                Waiting::Again => None,
            }),
    {
        match self {
            Waiting::Started => Some(Ok(())),
            Waiting::TimedOut => Some(Err(DbusError::NotStarted)),
            Waiting::Again => None,
        }
    }
}

/// Whether the expected track is the one that plays.
pub open spec fn plays(
    expected: Seq<char>,
    status: Option<PlaybackStatus>,
    meta: Option<MprisMetadata>,
) -> bool {
    &&& status == Some(PlaybackStatus::Playing)
    &&& meta is Some
    &&& short_id(meta->0.track_id@) == Some(expected)
}

/// One look at Spotify while waiting for it to play the track `expected`. The
/// time that has passed and the time allowed are in the same unit; `status` and
/// `meta` are what Spotify said, where it said anything.
pub fn wait_for_playing(
    expected: &str,
    elapsed: u128,
    timeout: u128,
    status: Option<PlaybackStatus>,
    meta: Option<MprisMetadata>,
) -> (r: Waiting)
    ensures
        r == (if elapsed > timeout {
            Waiting::TimedOut
        } else if plays(expected@, status, meta) {
            Waiting::Started
        } else {
            Waiting::Again
        }),
{
    if elapsed > timeout {
        return Waiting::TimedOut;
    }
    if let Some(status) = status {
        if status == PlaybackStatus::Playing {
            if let Some(meta) = meta {
                if let Some(id) = meta.track_id_short() {
                    if text::same(id, expected) {
                        return Waiting::Started;
                    }
                }
            }
        }
    }
    Waiting::Again
}

// ---------------------------------------------------------------------------
// Waiting for a track to end
// ---------------------------------------------------------------------------

/// How far before its end a track that stopped counts as finished.
pub const STOPPED_MARGIN_MS: u64 = 2000;

/// How far before its end a playing track counts as finished.
pub const PLAYING_MARGIN_MS: u64 = 500;

/// For how many looks in a row a track may be paused.
pub const PAUSED_LOOKS: u32 = 120;

/// For how many looks a playing track may stay where it is, which at two looks a
/// second is five seconds.
pub const STALLED_LOOKS: u32 = 10;

/// What was seen of a track while it is recorded.
#[derive(Clone, Copy, Debug, PartialEq, Eq, Structural)]
pub struct TrackEndMonitor {
    pub duration_ms: u64,
    pub last_position_ms: u64,
    pub max_position_ms: u64,
    /// How often in a row Spotify was found paused.
    pub paused_count: u32,
    /// How often the track, while it plays, was found where it was before.
    pub stalled_count: u32,
}

/// What one look at Spotify shows: whether the recording was cancelled, and the
/// position in microseconds and the status, where Spotify says them.
#[derive(Clone, Copy, Debug, PartialEq, Eq, Structural)]
pub struct Look {
    pub cancelled: bool,
    pub position_us: Option<u64>,
    pub status: Option<PlaybackStatus>,
}

/// What follows from one look at Spotify.
#[derive(Clone, Copy, Debug, PartialEq, Eq, Structural)]
pub enum Tick {
    /// The track goes on; look again.
    Again,
    /// The track is over.
    Ended,
    /// The track is over, but its last sound may still be on its way.
    EndedAfterFlush,
    /// The recording was cancelled.
    Cancelled,
    /// Spotify was paused for too long.
    PausedTooLong,
}

impl Tick {
    /// What the watch comes to, once it is over.
    pub fn outcome(self) -> (r: Option<Result<(), DbusError>>)
        ensures
            r == (match self {
                Tick::Again => None,
                Tick::Ended | Tick::EndedAfterFlush => Some(Ok::<(), DbusError>(())),
                Tick::Cancelled => Some(Err(DbusError::Cancelled)),
                Tick::PausedTooLong => Some(Err(DbusError::PausedTooLong)),
            }),
    {
        match self {
            Tick::Again => None,
            Tick::Ended | Tick::EndedAfterFlush => Some(Ok(())),
            Tick::Cancelled => Some(Err(DbusError::Cancelled)),
            Tick::PausedTooLong => Some(Err(DbusError::PausedTooLong)),
        }
    }
}

/// The larger of two numbers.
pub open spec fn larger(a: u64, b: u64) -> u64 {
    if a >= b {
        a
    } else {
        b
    }
}

/// The position that a look shows, in milliseconds; zero where Spotify says
/// none.
pub open spec fn position_ms(look: Look) -> u64 {
    match look.position_us {
        Some(us) => us / 1000,
        None => 0,
    }
}

/// The status that a look shows; stopped where Spotify says none.
pub open spec fn status_seen(look: Look) -> PlaybackStatus {
    match look.status {
        Some(status) => status,
        None => PlaybackStatus::Stopped,
    }
}

impl TrackEndMonitor {
    /// Whether the track has come within `margin` milliseconds of its end. A
    /// track of no known length never does.
    pub open spec fn near_end(self, margin: u64) -> bool {
        self.duration_ms > 0 && self.max_position_ms + margin >= self.duration_ms
    }

    /// The monitor once a position was seen.
    pub open spec fn at_position(self, ms: u64) -> TrackEndMonitor {
        TrackEndMonitor { max_position_ms: larger(self.max_position_ms, ms), ..self }
    }

    /// Whether a playing track is where it was when it was last seen to play.
    pub open spec fn stays(self, ms: u64) -> bool {
        ms > 0 && ms == self.last_position_ms
    }

    /// What one look leads to, and what is known after it.
    pub open spec fn after(self, look: Look) -> (Tick, TrackEndMonitor) {
        let pos = position_ms(look);
        let seen = self.at_position(pos);
        if look.cancelled {
            (Tick::Cancelled, self)
        } else {
            match status_seen(look) {
                PlaybackStatus::Stopped => (Tick::Ended, seen),
                PlaybackStatus::Paused => if seen.near_end(STOPPED_MARGIN_MS) {
                    (Tick::Ended, seen)
                } else {
                    let longer = TrackEndMonitor {
                        paused_count: (self.paused_count + 1) as u32,
                        ..seen
                    };
                    (
                        if longer.paused_count > PAUSED_LOOKS {
                            Tick::PausedTooLong
                        } else {
                            Tick::Again
                        },
                        longer,
                    )
                },
                PlaybackStatus::Playing => if seen.near_end(PLAYING_MARGIN_MS) {
                    (Tick::EndedAfterFlush, TrackEndMonitor { paused_count: 0, ..seen })
                } else if self.stays(pos) {
                    let longer = TrackEndMonitor {
                        paused_count: 0,
                        stalled_count: (self.stalled_count + 1) as u32,
                        ..seen
                    };
                    (
                        if longer.stalled_count > STALLED_LOOKS {
                            Tick::Ended
                        } else {
                            Tick::Again
                        },
                        longer,
                    )
                } else {
                    (
                        Tick::Again,
                        TrackEndMonitor {
                            paused_count: 0,
                            stalled_count: 0,
                            last_position_ms: pos,
                            ..seen
                        },
                    )
                },
            }
        }
    }

    /// What a monitor that still watches has counted.
    pub open spec fn wf(self) -> bool {
        &&& self.paused_count <= PAUSED_LOOKS
        &&& self.stalled_count <= STALLED_LOOKS
        &&& self.last_position_ms <= self.max_position_ms
    }

    /// A monitor for a track of the given length in microseconds.
    pub fn new(duration_us: u64) -> (r: TrackEndMonitor)
        ensures
            r == (TrackEndMonitor {
                duration_ms: duration_us / 1000,
                last_position_ms: 0,
                max_position_ms: 0,
                paused_count: 0,
                stalled_count: 0,
            }),
            r.wf(),
    {
        TrackEndMonitor {
            duration_ms: duration_us / 1000,
            last_position_ms: 0,
            max_position_ms: 0,
            paused_count: 0,
            stalled_count: 0,
        }
    }

    /// Takes one look into account and says whether the track is over.
    pub fn wait_for_track_end(&mut self, look: Look) -> (r: Tick)
        requires
            old(self).wf(),
        ensures
            (r, *final(self)) == old(self).after(look),
            r == Tick::Again ==> final(self).wf(),
    {
        if look.cancelled {
            return Tick::Cancelled;
        }
        let pos: u64 = match look.position_us {
            Some(us) => us / 1000,
            None => 0,
        };
        if pos > self.max_position_ms {
            self.max_position_ms = pos;
        }
        let status = match look.status {
            Some(status) => status,
            None => PlaybackStatus::Stopped,
        };
        match status {
            PlaybackStatus::Stopped => Tick::Ended,
            PlaybackStatus::Paused => {
                if self.duration_ms > 0 && self.max_position_ms >= self.duration_ms.saturating_sub(
                    STOPPED_MARGIN_MS,
                ) {
                    return Tick::Ended;
                }
                self.paused_count = self.paused_count + 1;
                if self.paused_count > PAUSED_LOOKS {
                    Tick::PausedTooLong
                } else {
                    Tick::Again
                }
            },
            PlaybackStatus::Playing => {
                self.paused_count = 0;
                if self.duration_ms > 0 && self.max_position_ms >= self.duration_ms.saturating_sub(
                    PLAYING_MARGIN_MS,
                ) {
                    return Tick::EndedAfterFlush;
                }
                // A track may end without a change of the status: its position
                // then stays where it is.
                if pos > 0 && pos == self.last_position_ms {
                    self.stalled_count = self.stalled_count + 1;
                    if self.stalled_count > STALLED_LOOKS {
                        Tick::Ended
                    } else {
                        Tick::Again
                    }
                } else {
                    self.stalled_count = 0;
                    self.last_position_ms = pos;
                    Tick::Again
                }
            },
        }
    }
}

// ---------------------------------------------------------------------------
// Laws of the monitor
// ---------------------------------------------------------------------------

/// What a monitor comes to over several looks; it stops at the first that does
/// not ask for another.
pub open spec fn watch(start: TrackEndMonitor, looks: Seq<Look>) -> (Tick, TrackEndMonitor)
    decreases looks.len(),
{
    if looks.len() == 0 {
        (Tick::Again, start)
    } else {
        let (tick, monitor) = watch(start, looks.drop_last());
        if tick == Tick::Again {
            monitor.after(looks.last())
        } else {
            (tick, monitor)
        }
    }
}

/// Spotify says that it is paused, and nobody cancelled.
pub open spec fn paused(look: Look) -> bool {
    !look.cancelled && status_seen(look) == PlaybackStatus::Paused
}

/// The last `n` of the looks all find Spotify paused.
pub open spec fn paused_for(looks: Seq<Look>, n: int) -> bool {
    n <= looks.len() && forall|i: int| looks.len() - n <= i < looks.len() ==> paused(#[trigger] looks[i])
}

/// A recording counts as finished exactly when nobody cancelled it and Spotify
/// stopped, or the track came near enough to its end: within half a second while
/// it plays, within two seconds while it is paused; or when it plays but was found
/// where it was more than ten times.
pub proof fn law_finished_at_the_end(monitor: TrackEndMonitor, look: Look)
    requires
        monitor.wf(),
    ensures
        ({
            let pos = position_ms(look);
            let seen = monitor.at_position(pos);
            let tick = monitor.after(look).0;
            (tick == Tick::Ended || tick == Tick::EndedAfterFlush) <==> !look.cancelled && match
                status_seen(look) {
                PlaybackStatus::Stopped => true,
                PlaybackStatus::Paused => seen.near_end(STOPPED_MARGIN_MS),
                PlaybackStatus::Playing => seen.near_end(PLAYING_MARGIN_MS) || (monitor.stays(pos)
                    && monitor.stalled_count == STALLED_LOOKS),
            }
        }),
{
}

/// Spotify says that it plays at the position `ms`, and nobody cancelled.
pub open spec fn plays_at(look: Look, ms: u64) -> bool {
    !look.cancelled && status_seen(look) == PlaybackStatus::Playing && position_ms(look) == ms
}

/// The last `n` of the looks all find the track playing at the position `ms`.
pub open spec fn plays_at_for(looks: Seq<Look>, ms: u64, n: int) -> bool {
    n <= looks.len() && forall|i: int|
        looks.len() - n <= i < looks.len() ==> plays_at(#[trigger] looks[i], ms)
}

proof fn lemma_stalls_count(start: TrackEndMonitor, looks: Seq<Look>, ms: u64, n: int)
    requires
        start.wf(),
        watch(start, looks).0 == Tick::Again,
        ms > 0,
        0 < n,
        plays_at_for(looks, ms, n),
    ensures
        watch(start, looks).1.last_position_ms == ms,
        watch(start, looks).1.stalled_count >= n - 1,
    decreases looks.len(),
{
    let before = looks.drop_last();
    assert(plays_at(looks[looks.len() - 1], ms));
    lemma_watching(start, before);
    if n > 1 {
        assert forall|i: int| before.len() - (n - 1) <= i < before.len() implies plays_at(
            #[trigger] before[i],
            ms,
        ) by {
            assert(plays_at(looks[i], ms));
        }
        lemma_stalls_count(start, before, ms, n - 1);
    }
}

/// A recording does not wait for ever for a track that stays where it is: once it
/// was found playing at one position, and then there again more than ten times in
/// a row, the watch is over, and not as a failure.
pub proof fn law_stall_ends_the_watch(start: TrackEndMonitor, looks: Seq<Look>, ms: u64)
    requires
        start.wf(),
        ms > 0,
        plays_at_for(looks, ms, STALLED_LOOKS + 2),
    ensures
        watch(start, looks).0 != Tick::Again,
        watch(start, looks.drop_last()).0 == Tick::Again ==> watch(start, looks).0 == Tick::Ended
            || watch(start, looks).0 == Tick::EndedAfterFlush,
{
    assert(plays_at(looks[looks.len() - 1], ms));
    if watch(start, looks).0 == Tick::Again {
        lemma_watching(start, looks);
        lemma_stalls_count(start, looks, ms, STALLED_LOOKS + 2);
    }
}

/// While a track is watched, the furthest position is the furthest of those that
/// were seen.
pub proof fn law_furthest_position(start: TrackEndMonitor, looks: Seq<Look>)
    requires
        watch(start, looks).0 == Tick::Again,
    ensures
        forall|i: int|
            0 <= i < looks.len() ==> position_ms(#[trigger] looks[i]) <= watch(
                start,
                looks,
            ).1.max_position_ms,
        watch(start, looks).1.max_position_ms == start.max_position_ms || exists|i: int|
            0 <= i < looks.len() && position_ms(#[trigger] looks[i]) == watch(
                start,
                looks,
            ).1.max_position_ms,
        start.max_position_ms <= watch(start, looks).1.max_position_ms,
        watch(start, looks).1.duration_ms == start.duration_ms,
    decreases looks.len(),
{
    if looks.len() > 0 {
        let before = looks.drop_last();
        law_furthest_position(start, before);
        let max = watch(start, looks).1.max_position_ms;
        assert forall|i: int| 0 <= i < looks.len() implies position_ms(#[trigger] looks[i]) <= max by {
            if i < before.len() {
                assert(before[i] == looks[i]);
            }
        }
        let earlier = watch(start, before).1.max_position_ms;
        if max == earlier && max != start.max_position_ms {
            let i = choose|i: int|
                0 <= i < before.len() && position_ms(#[trigger] before[i]) == earlier;
            assert(position_ms(looks[i]) == max);
        } else if max != earlier {
            assert(position_ms(looks[looks.len() - 1]) == max);
        }
    }
}

proof fn lemma_pauses_seen(start: TrackEndMonitor, looks: Seq<Look>, n: int)
    requires
        watch(start, looks).0 == Tick::Again,
        start.paused_count == 0,
        0 <= n <= watch(start, looks).1.paused_count,
    ensures
        paused_for(looks, n),
    decreases looks.len(),
{
    if looks.len() > 0 && n > 0 {
        let before = looks.drop_last();
        assert(paused(looks.last()));
        lemma_pauses_seen(start, before, n - 1);
        assert forall|i: int| looks.len() - n <= i < looks.len() implies paused(
            #[trigger] looks[i],
        ) by {
            if i < before.len() {
                assert(before[i] == looks[i]);
            }
        }
    }
}

/// A recording is given up for a pause only after Spotify was found paused more
/// than a hundred and twenty times in a row, which at two looks a second is a
/// minute.
pub proof fn law_gives_up_after_long_pause(start: TrackEndMonitor, looks: Seq<Look>)
    requires
        looks.len() > 0,
        start.wf(),
        start.paused_count == 0,
        watch(start, looks.drop_last()).0 == Tick::Again,
        watch(start, looks).0 == Tick::PausedTooLong,
    ensures
        paused_for(looks, PAUSED_LOOKS + 1),
{
    let before = looks.drop_last();
    lemma_watching(start, before);
    lemma_pauses_seen(start, before, PAUSED_LOOKS as int);
    assert forall|i: int| looks.len() - (PAUSED_LOOKS + 1) <= i < looks.len() implies paused(
        #[trigger] looks[i],
    ) by {
        if i < before.len() {
            assert(before[i] == looks[i]);
        }
    }
}

proof fn lemma_watching(start: TrackEndMonitor, looks: Seq<Look>)
    requires
        start.wf(),
        watch(start, looks).0 == Tick::Again,
    ensures
        watch(start, looks).1.wf(),
    decreases looks.len(),
{
    if looks.len() > 0 {
        lemma_watching(start, looks.drop_last());
    }
}

proof fn lemma_pause_counts(start: TrackEndMonitor, looks: Seq<Look>, n: int)
    requires
        start.wf(),
        watch(start, looks).0 == Tick::Again,
        0 <= n,
        paused_for(looks, n),
    ensures
        watch(start, looks).1.paused_count >= n,
    decreases looks.len(),
{
    if n > 0 {
        let before = looks.drop_last();
        assert(paused(looks[looks.len() - 1]));
        assert forall|i: int| before.len() - (n - 1) <= i < before.len() implies paused(
            #[trigger] before[i],
        ) by {
            assert(paused(looks[i]));
        }
        lemma_watching(start, before);
        lemma_pause_counts(start, before, n - 1);
    }
}

/// A recording does not wait for ever: once Spotify was found paused more often
/// in a row than it may be, the watch is over.
pub proof fn law_long_pause_ends_the_watch(start: TrackEndMonitor, looks: Seq<Look>)
    requires
        start.wf(),
        paused_for(looks, PAUSED_LOOKS + 1),
    ensures
        watch(start, looks).0 != Tick::Again,
{
    if watch(start, looks).0 == Tick::Again {
        lemma_watching(start, looks);
        lemma_pause_counts(start, looks, PAUSED_LOOKS + 1);
    }
}

/// A look ends the watch by what it shows in plain numbers. With `p` the furthest
/// position so far and `d` the length of the track, both in milliseconds: a track
/// that plays is over once `d > 0` and `p >= d - 500`, one that is paused once
/// `d > 0` and `p >= d - 2000`, and one that is stopped, or of which Spotify says
/// nothing, is over. Else a track that plays and moves goes on, one that plays
/// where it was is over at the eleventh look in a row, and one that is paused is
/// given up at the look after the hundred and twentieth.
pub proof fn law_look_in_plain_numbers(monitor: TrackEndMonitor, look: Look)
    requires
        monitor.wf(),
    ensures
        ({
            let tick = monitor.after(look).0;
            let next = monitor.after(look).1;
            let now: int = match look.position_us {
                Some(us) => us as int / 1000,
                None => 0,
            };
            let d = monitor.duration_ms as int;
            let p: int = if now > monitor.max_position_ms {
                now
            } else {
                monitor.max_position_ms as int
            };
            let moves = now == 0 || now != monitor.last_position_ms;
            &&& look.cancelled ==> tick == Tick::Cancelled && next == monitor
            &&& !look.cancelled ==> next.max_position_ms == p && next.duration_ms == d
            &&& !look.cancelled && look.status is None ==> tick == Tick::Ended
            &&& !look.cancelled && look.status == Some(PlaybackStatus::Stopped) ==> tick
                == Tick::Ended
            &&& !look.cancelled && look.status == Some(PlaybackStatus::Paused) ==> {
                &&& tick == Tick::Ended <==> d > 0 && p >= d - 2000
                &&& tick == Tick::PausedTooLong <==> !(d > 0 && p >= d - 2000)
                    && monitor.paused_count >= 120
                &&& tick == Tick::Ended || tick == Tick::PausedTooLong || tick == Tick::Again
                &&& tick != Tick::Ended ==> next.paused_count == monitor.paused_count + 1
                &&& next.last_position_ms == monitor.last_position_ms
                &&& next.stalled_count == monitor.stalled_count
            }
            &&& !look.cancelled && look.status == Some(PlaybackStatus::Playing) ==> {
                &&& tick == Tick::EndedAfterFlush <==> d > 0 && p >= d - 500
                &&& tick == Tick::Ended <==> !(d > 0 && p >= d - 500) && !moves
                    && monitor.stalled_count >= 10
                &&& tick == Tick::Ended || tick == Tick::EndedAfterFlush || tick == Tick::Again
                &&& next.paused_count == 0
                &&& moves && tick == Tick::Again ==> next.last_position_ms == now
                    && next.stalled_count == 0
                &&& !moves && tick == Tick::Again ==> next.last_position_ms
                    == monitor.last_position_ms && next.stalled_count == monitor.stalled_count + 1
            }
        }),
{
}

/// A look shows a position of at least `ms` milliseconds.
pub open spec fn shows(look: Look, ms: int) -> bool {
    match look.position_us {
        Some(us) => us as int / 1000 >= ms,
        None => false,
    }
}

/// Whether some look shows a position of at least `ms` milliseconds.
pub open spec fn reached(looks: Seq<Look>, ms: int) -> bool {
    exists|i: int|
        0 <= i < looks.len() && shows(#[trigger] looks[i], ms)
}

proof fn lemma_reached(start: TrackEndMonitor, looks: Seq<Look>, ms: int)
    requires
        looks.len() > 0,
        !looks.last().cancelled,
        watch(start, looks.drop_last()).0 == Tick::Again,
        start.max_position_ms == 0,
        ms > 0,
    ensures
        watch(start, looks).1.max_position_ms >= ms <==> reached(looks, ms),
        watch(start, looks).1.duration_ms == start.duration_ms,
    decreases looks.len(),
{
    let before = looks.drop_last();
    let seen = watch(start, before).1;
    law_furthest_position(start, before);
    assert(looks[looks.len() - 1] == looks.last());
    if reached(looks, ms) {
        let i = choose|i: int|
            0 <= i < looks.len() && shows(#[trigger] looks[i], ms);
        if i < before.len() {
            assert(position_ms(before[i]) >= ms);
        }
    }
    if watch(start, looks).1.max_position_ms >= ms {
        if seen.max_position_ms >= ms {
            let i = choose|i: int|
                0 <= i < before.len() && position_ms(#[trigger] before[i]) == seen.max_position_ms;
            assert(looks[i] == before[i]);
        }
        assert(reached(looks, ms));
    }
}

/// A track of `d` milliseconds that is watched from its start is over at the very
/// look by which half a second or less of it is left: while it plays, the watch
/// ends for that reason if and only if some look so far showed at least `d - 500`
/// milliseconds, and while it is paused, `d - 2000`. A track of no known length is
/// never over for that reason.
pub proof fn law_watch_ends_at_the_end(duration_us: u64, looks: Seq<Look>)
    requires
        looks.len() > 0,
        !looks.last().cancelled,
        watch(
            (TrackEndMonitor {
                duration_ms: duration_us / 1000,
                last_position_ms: 0,
                max_position_ms: 0,
                paused_count: 0,
                stalled_count: 0,
            }),
            looks.drop_last(),
        ).0 == Tick::Again,
    ensures
        ({
            let start = TrackEndMonitor {
                duration_ms: duration_us / 1000,
                last_position_ms: 0,
                max_position_ms: 0,
                paused_count: 0,
                stalled_count: 0,
            };
            let tick = watch(start, looks).0;
            let d = duration_us as int / 1000;
            &&& looks.last().status == Some(PlaybackStatus::Playing) ==> (tick
                == Tick::EndedAfterFlush <==> d > 0 && (d <= 500 || reached(looks, d - 500)))
            &&& looks.last().status == Some(PlaybackStatus::Paused) ==> (tick == Tick::Ended
                <==> d > 0 && (d <= 2000 || reached(looks, d - 2000)))
        }),
{
    let start = TrackEndMonitor {
        duration_ms: duration_us / 1000,
        last_position_ms: 0,
        max_position_ms: 0,
        paused_count: 0,
        stalled_count: 0,
    };
    let d = duration_us as int / 1000;
    lemma_watching(start, looks.drop_last());
    law_furthest_position(start, looks.drop_last());
    if d > 500 {
        lemma_reached(start, looks, d - 500);
    }
    if d > 2000 {
        lemma_reached(start, looks, d - 2000);
    }
}

// ---------------------------------------------------------------------------
// Laws of the replies and of the track that plays
// ---------------------------------------------------------------------------

/// The first line that holds a string decides: the string of two lists of lines is
/// that of the first, or where that has none, that of the second.
pub proof fn law_first_string_decides(first: Seq<Seq<char>>, second: Seq<Seq<char>>, line: Seq<char>)
    ensures
        first_string(first + second) == (if first_string(first) is Some {
            first_string(first)
        } else {
            first_string(second)
        }),
        first_string(seq![line]) == line_string(line),
    decreases first.len(),
{
    assert(seq![line].drop_first() =~= Seq::empty());
    assert(first_string(seq![line].drop_first()) is None);
    if first.len() == 0 {
        assert(first + second =~= second);
    } else {
        assert((first + second).drop_first() =~= first.drop_first() + second);
        assert((first + second)[0] == first[0]);
        law_first_string_decides(first.drop_first(), second, line);
    }
}

/// The first line that holds a number decides.
pub proof fn law_first_number_decides(first: Seq<Seq<char>>, second: Seq<Seq<char>>, line: Seq<char>)
    ensures
        first_number(first + second) == (if first_number(first) is Some {
            first_number(first)
        } else {
            first_number(second)
        }),
        first_number(seq![line]) == line_number(line),
    decreases first.len(),
{
    assert(seq![line].drop_first() =~= Seq::empty());
    assert(first_number(seq![line].drop_first()) is None);
    if first.len() == 0 {
        assert(first + second =~= second);
    } else {
        assert((first + second).drop_first() =~= first.drop_first() + second);
        assert((first + second)[0] == first[0]);
        law_first_number_decides(first.drop_first(), second, line);
    }
}

proof fn lemma_key_names()
    ensures
        key_named("mpris:trackid"@) == Some(Key::TrackId),
        key_named("mpris:length"@) == Some(Key::Length),
        key_named("mpris:artUrl"@) == Some(Key::ArtUrl),
        key_named("xesam:title"@) == Some(Key::Title),
        key_named("xesam:album"@) == Some(Key::Album),
        key_named("xesam:artist"@) == Some(Key::Artist),
        !"mpris:trackid"@.contains('"') && !"mpris:trackid"@.contains('\n'),
        !"mpris:length"@.contains('"') && !"mpris:length"@.contains('\n'),
        !"mpris:artUrl"@.contains('"') && !"mpris:artUrl"@.contains('\n'),
        !"xesam:title"@.contains('"') && !"xesam:title"@.contains('\n'),
        !"xesam:album"@.contains('"') && !"xesam:album"@.contains('\n'),
        !"xesam:artist"@.contains('"') && !"xesam:artist"@.contains('\n'),
{
    reveal_strlit("mpris:trackid");
    reveal_strlit("mpris:length");
    reveal_strlit("mpris:artUrl");
    reveal_strlit("xesam:title");
    reveal_strlit("xesam:album");
    reveal_strlit("xesam:artist");
    assert("mpris:trackid"@[6] == 't');
    assert("mpris:length"@[6] == 'l');
    assert("mpris:artUrl"@[6] == 'a' && "mpris:artUrl"@[0] == 'm');
    assert("xesam:title"@[6] == 't' && "xesam:title"@[0] == 'x' && "xesam:title"@.len() == 11);
    assert("xesam:album"@[6] == 'a' && "xesam:album"@[0] == 'x' && "xesam:album"@.len() == 11);
    assert("xesam:artist"@[6] == 'a' && "xesam:artist"@[0] == 'x' && "xesam:artist"@.len() == 12);
    assert("mpris:trackid"@.len() == 13 && "mpris:length"@.len() == 12 && "mpris:artUrl"@.len()
        == 12);
}

/// What Spotify says under each key is read as what that key means: the reply with
/// these six entries gives the identifier, the length, the address of the cover,
/// the title, the album and the first artist.
pub proof fn law_each_key_has_its_meaning(
    head: Seq<Seq<char>>,
    tail: Seq<Seq<char>>,
    track_id: Seq<char>,
    duration_us: u64,
    art_url: Seq<char>,
    title: Seq<char>,
    album: Seq<char>,
    artists: Seq<Seq<char>>,
)
    requires
        silent(head),
        silent(tail),
        plain_value(track_id),
        plain_value(art_url),
        plain_value(title),
        plain_value(album),
        artists.len() > 0,
        forall|i: int| 0 <= i < artists.len() ==> plain_value(#[trigger] artists[i]),
    ensures
        reply_metadata(
            metadata_reply(
                head,
                seq![
                    Entry { key: "mpris:trackid"@, body: text_body(track_id) },
                    Entry { key: "mpris:length"@, body: number_body(duration_us as nat) },
                    Entry { key: "mpris:artUrl"@, body: text_body(art_url) },
                    Entry { key: "xesam:title"@, body: text_body(title) },
                    Entry { key: "xesam:album"@, body: text_body(album) },
                    Entry { key: "xesam:artist"@, body: list_body(artists) },
                ],
                tail,
            ),
        ) == (MprisView { track_id, title, artist: artists[0], album, art_url, duration_us }),
{
    lemma_key_names();
    let e1 = Entry { key: "mpris:trackid"@, body: text_body(track_id) };
    let e2 = Entry { key: "mpris:length"@, body: number_body(duration_us as nat) };
    let e3 = Entry { key: "mpris:artUrl"@, body: text_body(art_url) };
    let e4 = Entry { key: "xesam:title"@, body: text_body(title) };
    let e5 = Entry { key: "xesam:album"@, body: text_body(album) };
    let e6 = Entry { key: "xesam:artist"@, body: list_body(artists) };
    law_text_is_printed(e1.key, track_id);
    law_number_is_printed(e2.key, duration_us);
    law_text_is_printed(e3.key, art_url);
    law_text_is_printed(e4.key, title);
    law_text_is_printed(e5.key, album);
    law_list_is_printed(e6.key, artists);
    let entries = seq![e1, e2, e3, e4, e5, e6];
    law_entries_are_read(head, entries, tail);
    let s5 = seq![e1, e2, e3, e4, e5];
    let s4 = seq![e1, e2, e3, e4];
    let s3 = seq![e1, e2, e3];
    let s2 = seq![e1, e2];
    let s1 = seq![e1];
    assert(entries.drop_last() =~= s5);
    assert(s5.drop_last() =~= s4);
    assert(s4.drop_last() =~= s3);
    assert(s3.drop_last() =~= s2);
    assert(s2.drop_last() =~= s1);
    assert(s1.drop_last() =~= Seq::empty());
    assert(metadata_of(s1.drop_last()) == no_metadata());
    assert(metadata_of(s1) == with_entry(no_metadata(), e1));
    assert(metadata_of(s2) == with_entry(metadata_of(s1), e2));
    assert(metadata_of(s3) == with_entry(metadata_of(s2), e3));
    assert(metadata_of(s4) == with_entry(metadata_of(s3), e4));
    assert(metadata_of(s5) == with_entry(metadata_of(s4), e5));
    assert(metadata_of(entries) == with_entry(metadata_of(s5), e6));
}

/// Spotify's object path of a track names it by its identifier; the URI is made of
/// the same identifier, and there is one only where it is an identifier.
pub proof fn law_object_path_names_the_track(track_id: Seq<char>, id: Seq<char>)
    ensures
        short_id(track_id) == Some(id) <==> track_id == "/com/spotify/track/"@ + id,
        valid_id(id) ==> uri_of("/com/spotify/track/"@ + id) == Some("spotify:track:"@ + id),
        !valid_id(id) ==> uri_of("/com/spotify/track/"@ + id) is None,
        uri_of(track_id) is Some ==> "/com/spotify/track/"@.is_prefix_of(track_id),
{
    let prefix = "/com/spotify/track/"@;
    let path = prefix + id;
    assert(prefix.is_prefix_of(path)) by {
        assert(path.take(prefix.len() as int) =~= prefix);
    }
    assert(path.skip(prefix.len() as int) =~= id);
    if short_id(track_id) == Some(id) {
        assert(track_id =~= prefix + id);
    }
}

/// A track counts as started exactly when Spotify says that it plays and that the
/// track is the expected one, by its whole identifier.
pub proof fn law_only_the_expected_track_counts(
    expected: Seq<char>,
    status: Option<PlaybackStatus>,
    meta: Option<MprisMetadata>,
)
    ensures
        plays(expected, status, meta) <==> status == Some(PlaybackStatus::Playing) && meta is Some
            && meta->0.track_id@ == "/com/spotify/track/"@ + expected,
{
    if meta is Some {
        law_object_path_names_the_track(meta->0.track_id@, expected);
    }
}

/// Every call goes to Spotify's player object and asks for a reply; a method is
/// called by its name, and a property read by its name.
pub proof fn law_calls_go_to_spotify(name: Seq<char>, further: Seq<Seq<char>>)
    ensures
        ({
            let call = method_call(name, further);
            &&& call.len() == 4 + further.len()
            &&& call[0] == "--print-reply"@
            &&& call[1] == "--dest=org.mpris.MediaPlayer2.spotify"@
            &&& call[2] == "/org/mpris/MediaPlayer2"@
            &&& call[3] == "org.mpris.MediaPlayer2.Player."@ + name
            &&& call.skip(4) == further
        }),
        ({
            let call = property_call(name);
            &&& call.len() == 6
            &&& call[0] == "--print-reply"@
            &&& call[1] == "--dest=org.mpris.MediaPlayer2.spotify"@
            &&& call[2] == "/org/mpris/MediaPlayer2"@
            &&& call[3] == "org.freedesktop.DBus.Properties.Get"@
            &&& call[4] == "string:org.mpris.MediaPlayer2.Player"@
            &&& call[5] == "string:"@ + name
        }),
{
    assert(method_call(name, further).skip(4) =~= further);
}

/// Only the two words for it make a status; whatever else Spotify says counts as
/// stopped.
pub proof fn law_words_for_a_status(word: Seq<char>)
    ensures
        status_named(word) == PlaybackStatus::Playing <==> word == "Playing"@,
        status_named(word) == PlaybackStatus::Paused <==> word == "Paused"@,
{
    reveal_strlit("Playing");
    reveal_strlit("Paused");
    assert("Playing"@.len() == 7 && "Paused"@.len() == 6);
}

/// A string stands in a line in quotes after the word for it, with or without the
/// word `variant` before, and whatever white space is in front.
pub proof fn law_forms_of_a_string(pad: Seq<char>, gap: Seq<char>, value: Seq<char>)
    requires
        text::all_in(text::Charset::White, pad),
        text::all_in(text::Charset::White, gap),
    ensures
        line_string(pad + ("string \""@ + value + "\""@)) == Some(value),
        line_string(pad + "variant"@ + gap + ("string \""@ + value + "\""@)) == Some(value),
{
    reveal_strlit("string \"");
    reveal_strlit("\"");
    reveal_strlit("variant");
    let content = "string \""@ + value + "\""@;
    lemma_string_content(value);
    lemma_white(pad);
    lemma_white(gap);
    text::lemma_trim_padded(pad, content);
    assert(content[0] == 's');
    if "variant"@.is_prefix_of(content) {
        assert(content[0] == "variant"@[0]);
    }
    assert("string \""@.is_prefix_of(content)) by {
        assert(content.take(8) =~= "string \""@);
    }
    let rest = value + "\""@;
    assert(content.skip(8) =~= rest);
    assert("\""@.is_suffix_of(rest));
    assert(rest.take(value.len() as int) =~= value);
    lemma_after_variant(pad, gap, content);
}

/// A number stands in a line after the word for its type, of either sign, with or
/// without the word `variant` before, and whatever white space is in front.
pub proof fn law_forms_of_a_number(pad: Seq<char>, gap: Seq<char>, n: u64)
    requires
        text::all_in(text::Charset::White, pad),
        text::all_in(text::Charset::White, gap),
    ensures
        line_number(pad + ("int64 "@ + text::decimal(n as nat))) == Some(text::decimal(n as nat)),
        line_number(pad + ("uint64 "@ + text::decimal(n as nat))) == Some(text::decimal(n as nat)),
        line_number(pad + "variant"@ + gap + ("int64 "@ + text::decimal(n as nat))) == Some(
            text::decimal(n as nat),
        ),
        line_number(pad + "variant"@ + gap + ("uint64 "@ + text::decimal(n as nat))) == Some(
            text::decimal(n as nat),
        ),
{
    reveal_strlit("int64 ");
    reveal_strlit("uint64 ");
    reveal_strlit("variant");
    let digits = text::decimal(n as nat);
    text::lemma_decimal_digits(n as nat);
    let short = "int64 "@ + digits;
    let long = "uint64 "@ + digits;
    assert(short[0] == 'i' && short.last() == digits.last());
    assert(long[0] == 'u' && long.last() == digits.last());
    lemma_white(pad);
    lemma_white(gap);
    text::lemma_trim_padded(pad, short);
    text::lemma_trim_padded(pad, long);
    lemma_after_variant(pad, gap, short);
    lemma_after_variant(pad, gap, long);
    if "variant"@.is_prefix_of(short) {
        assert(short[0] == "variant"@[0]);
    }
    if "variant"@.is_prefix_of(long) {
        assert(long[0] == "variant"@[0]);
    }
    if "int64 "@.is_prefix_of(long) {
        assert(long[0] == "int64 "@[0]);
    }
    assert("int64 "@.is_prefix_of(short)) by {
        assert(short.take(6) =~= "int64 "@);
    }
    assert("uint64 "@.is_prefix_of(long)) by {
        assert(long.take(7) =~= "uint64 "@);
    }
    let none = Seq::<char>::empty();
    assert(short.skip(6) =~= none + digits);
    assert(long.skip(7) =~= none + digits);
    text::lemma_trim_padded(none, digits);
}

proof fn lemma_white(s: Seq<char>)
    requires
        text::all_in(text::Charset::White, s),
    ensures
        forall|i: int| 0 <= i < s.len() ==> text::white_space(#[trigger] s[i]),
{
    assert forall|i: int| 0 <= i < s.len() implies text::white_space(#[trigger] s[i]) by {
        assert(text::member(text::Charset::White, s[i]));
    }
}

/// A line that holds no string, nor the beginning of one.
pub open spec fn wordless(line: Seq<char>) -> bool {
    after_variant_quote(line) is None && bare_string(line) is None
}

/// The value of a key is looked for in five lines: it is the string in the first of
/// them that holds one, and there is none where only a later line does.
pub proof fn law_value_within_five_lines(lines: Seq<Seq<char>>, i: int, k: int)
    requires
        0 <= i,
        0 <= k,
        i + k < lines.len(),
        forall|j: int| i <= j < i + k ==> wordless(#[trigger] lines[j]),
        line_string(lines[i + k]) is Some,
    ensures
        string_within(lines, i, REACH as nat) == if k < 5 {
            line_string(lines[i + k])
        } else {
            None
        },
{
    lemma_string_in_reach(lines, i, k, REACH as nat);
}

proof fn lemma_string_in_reach(lines: Seq<Seq<char>>, i: int, k: int, left: nat)
    requires
        0 <= i,
        0 <= k,
        i + k < lines.len(),
        forall|j: int| i <= j < i + k ==> wordless(#[trigger] lines[j]),
        line_string(lines[i + k]) is Some,
    ensures
        string_within(lines, i, left) == if k < left {
            line_string(lines[i + k])
        } else {
            None
        },
    decreases left,
{
    if left > 0 {
        if k > 0 {
            assert(wordless(lines[i]));
            lemma_string_in_reach(lines, i + 1, k - 1, (left - 1) as nat);
        } else {
            reveal_strlit("variant");
            reveal_strlit("string \"");
            let content = text::trim_white(lines[i]);
            if "variant"@.is_prefix_of(content) && "string \""@.is_prefix_of(content) {
                assert(content[0] == "variant"@[0]);
                assert(content[0] == "string \""@[0]);
            }
        }
    }
}

/// The number of a key is looked for in five lines as well.
pub proof fn law_number_within_five_lines(lines: Seq<Seq<char>>, i: int, k: int, n: u64)
    requires
        0 <= i,
        0 <= k,
        i + k < lines.len(),
        forall|j: int| i <= j < i + k ==> line_number(#[trigger] lines[j]) is None,
        line_number(lines[i + k]) == Some(text::decimal(n as nat)),
    ensures
        number_within(lines, i, REACH as nat) == if k < 5 {
            Some(n)
        } else {
            None
        },
{
    lemma_number_in_reach(lines, i, k, n, REACH as nat);
}

proof fn lemma_number_in_reach(lines: Seq<Seq<char>>, i: int, k: int, n: u64, left: nat)
    requires
        0 <= i,
        0 <= k,
        i + k < lines.len(),
        forall|j: int| i <= j < i + k ==> line_number(#[trigger] lines[j]) is None,
        line_number(lines[i + k]) == Some(text::decimal(n as nat)),
    ensures
        number_within(lines, i, left) == if k < left {
            Some(n)
        } else {
            None
        },
    decreases left,
{
    text::law_decimal_reads_back(n as nat, u64::MAX as nat);
    if left > 0 && k > 0 {
        assert(line_number(lines[i]) is None);
        lemma_number_in_reach(lines, i + 1, k - 1, n, (left - 1) as nat);
    }
}

/// Only track URIs and secure links to Spotify's web player are opened.
pub proof fn law_what_may_be_opened(uri: Seq<char>, rest: Seq<char>)
    ensures
        openable("spotify:track:"@ + rest),
        openable("https://open.spotify.com/"@ + rest),
        openable(uri) ==> uri == "spotify:track:"@ + uri.skip(14) || uri
            == "https://open.spotify.com/"@ + uri.skip(25),
{
    reveal_strlit("spotify:track:");
    reveal_strlit("https://open.spotify.com/");
    let a = "spotify:track:"@;
    let b = "https://open.spotify.com/"@;
    assert((a + rest).take(a.len() as int) =~= a);
    assert((b + rest).take(b.len() as int) =~= b);
    if a.is_prefix_of(uri) {
        assert(uri =~= a + uri.skip(14));
    } else if b.is_prefix_of(uri) {
        assert(uri =~= b + uri.skip(25));
    }
}

} // verus!
