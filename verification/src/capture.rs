//! The recording of one track: what it is called, how it is tagged, and in which
//! order the session goes.
//!
//! A session checks that Spotify Desktop runs, creates a silent sink, redirects
//! Spotify's audio to it, records the sink while the track plays from its start
//! to its end, and puts everything back.
use crate::codec;
use crate::metadata;
use crate::metadata::TrackInfo;
use crate::output;
use crate::output::{Arg, ArgView, Bitrate, Format, Metadata, MetadataView};
use crate::spotify_dbus::{DbusError, MprisMetadata, MprisView};
use crate::text;
use std::path::PathBuf;
use vstd::prelude::*;

verus! {

/// What a session records to, and how.
pub struct CaptureConfig {
    pub format: Format,
    pub bitrate: Bitrate,
    pub output_dir: PathBuf,
    pub client_id: Option<String>,
    pub cache_dir: PathBuf,
}

// ---------------------------------------------------------------------------
// What is known of the track
// ---------------------------------------------------------------------------

/// What a track is called: its title and its artist, as far as they are known.
pub open spec fn display_name(tags: MetadataView, id: Seq<char>) -> Seq<char> {
    let title = match tags.title {
        Some(title) => title,
        None => id,
    };
    match tags.artist {
        Some(artist) => title + " - "@ + artist,
        None => title,
    }
}

/// What the track `id` with these tags is called.
pub fn build_display_name(tags: &Metadata, id: &str) -> (r: String)
    ensures
        r@ == display_name(tags@, id@),
{
    let title = match &tags.title {
        Some(title) => title.as_str(),
        None => id,
    };
    match &tags.artist {
        Some(artist) => title.to_owned().concat(" - ").concat(artist.as_str()),
        None => title.to_owned(),
    }
}

/// There is something to embed into the recording.
pub open spec fn has_tags(tags: MetadataView, has_artwork: bool) -> bool {
    tags.title is Some || tags.artist is Some || has_artwork
}

/// Whether there is something to embed into the recording.
pub fn needs_metadata_embed(info: &TrackInfo) -> (r: bool)
    ensures
        r == has_tags(info.tags@, info.artwork is Some),
{
    info.tags.title.is_some() || info.tags.artist.is_some() || info.artwork.is_some()
}

/// A text that is there.
pub open spec fn said(s: Seq<char>) -> Option<Seq<char>> {
    if s.len() > 0 {
        Some(s)
    } else {
        None
    }
}

/// The tags of the track `id` as Spotify Desktop knows them.
pub open spec fn desktop_tags(id: Seq<char>, meta: MprisView) -> MetadataView {
    MetadataView {
        title: if meta.title.len() > 0 {
            Some(meta.title)
        } else {
            Some(id)
        },
        artist: said(meta.artist),
        album: said(meta.album),
        ..output::no_tags()
    }
}

/// What Spotify Desktop knows of the track `id`; where it says nothing, the
/// identifier is all there is.
pub fn mpris_metadata_fallback(id: &str, meta: Result<MprisMetadata, DbusError>) -> (r: TrackInfo)
    ensures
        r.artwork is None,
        match meta {
            Ok(meta) => {
                &&& r.tags@ == desktop_tags(id@, meta@)
                &&& r.duration_ms == Some((meta.duration_us / 1000) as u64)
            },
            Err(_) => r.tags@ == metadata::fallback_tags(id@) && r.duration_ms is None,
        },
{
    let mut info = TrackInfo::fallback(id);
    if let Ok(meta) = meta {
        info.duration_ms = Some(meta.duration_ms());
        if !meta.title.as_str().is_empty() {
            info.tags.title = Some(meta.title);
        }
        if !meta.artist.as_str().is_empty() {
            info.tags.artist = Some(meta.artist);
        }
        if !meta.album.as_str().is_empty() {
            info.tags.album = Some(meta.album);
        }
    }
    info
}

/// What counts as an answer of the Web API: what it knows of the track, if it knows
/// a title.
pub open spec fn web_answer(web: Option<TrackInfo>) -> Option<TrackInfo> {
    if web is Some && web->0.tags.title is Some {
        web
    } else {
        None
    }
}

/// What the Web API knows of the track, if it was asked, answered and gave a title.
/// Otherwise Spotify Desktop is asked.
pub fn load_metadata(web: Option<TrackInfo>) -> (r: Option<TrackInfo>)
    ensures
        r == web_answer(web),
{
    match web {
        Some(info) => if info.tags.title.is_some() {
            Some(info)
        } else {
            None
        },
        None => None,
    }
}

/// Where the Web API was not asked, or its request failed, what Spotify Desktop says
/// is used: its title, artist and album are the tags, as far as it says them.
pub proof fn law_desktop_stands_in(id: Seq<char>, meta: MprisView)
    ensures
        web_answer(None) is None,
        meta.title.len() > 0 ==> desktop_tags(id, meta).title == Some(meta.title),
        meta.artist.len() > 0 ==> desktop_tags(id, meta).artist == Some(meta.artist),
        meta.album.len() > 0 ==> desktop_tags(id, meta).album == Some(meta.album),
        meta.title.len() > 0 && meta.artist.len() > 0 ==> display_name(
            desktop_tags(id, meta),
            id,
        ) == meta.title + " - "@ + meta.artist,
{
}

/// An answer of the Web API is used, whatever Spotify Desktop would say.
pub proof fn law_web_answer_is_used(id: Seq<char>, data: crate::json::JsonView, info: TrackInfo)
    requires
        info.tags@ == metadata::web_tags(id, data),
    ensures
        web_answer(Some(info)) == Some(info),
{
    assert(info.tags@.title is Some);
}

/// Whatever the Web API or Spotify Desktop say of a track, there is something to
/// embed into its recording.
pub proof fn law_recordings_are_tagged(
    id: Seq<char>,
    data: crate::json::JsonView,
    meta: MprisView,
    has_artwork: bool,
)
    ensures
        has_tags(metadata::web_tags(id, data), has_artwork),
        has_tags(desktop_tags(id, meta), has_artwork),
        has_tags(metadata::fallback_tags(id), has_artwork),
{
}

// ---------------------------------------------------------------------------
// Files
// ---------------------------------------------------------------------------

/// The folder for recordings where none is given, component by component: one in
/// the home directory, or below the current directory where there is no home.
pub fn default_output_dir(home: Option<String>) -> (r: Vec<String>)
    ensures
        text::views(r@) == seq![
            match home {
                Some(home) => home@,
                None => "."@,
            },
            "Music"@,
            "SpotCapture"@,
        ],
{
    let base = match home {
        Some(home) => home,
        None => ".".to_owned(),
    };
    let r = text::list(&[base.as_str(), "Music", "SpotCapture"]);
    assert(text::views(r@) =~= seq![base@, "Music"@, "SpotCapture"@]);
    r
}

/// What the recording of a track is called.
pub open spec fn output_file(name: Seq<char>, format: Format) -> Seq<char> {
    metadata::file_name(name) + "."@ + output::extension_of(format)
}

/// What the recording of a track of this name is called.
pub fn output_name(name: &str, format: Format) -> (r: String)
    ensures
        r@ == output_file(name@, format),
{
    metadata::safe_filename(name).concat(".").concat(format.extension())
}

/// The extension of the file that a recording is tagged in.
pub fn tagged_extension(format: Format) -> (r: String)
    ensures
        r@ == "tmp."@ + output::extension_of(format),
{
    "tmp.".to_owned().concat(format.extension())
}

/// The arguments of the FFmpeg that copies a recording and embeds tags and cover.
pub open spec fn embed_args(
    input_path: PathBuf,
    artwork: Option<PathBuf>,
    tags: MetadataView,
    format: Format,
    temp_path: PathBuf,
) -> Seq<ArgView> {
    let cover = artwork is Some && format != Format::Wav;
    output::words(
        seq!["-hide_banner"@, "-loglevel"@, "error"@, "-nostdin"@, "-y"@, "-i"@],
    ) + output::path(input_path) + (if cover {
        output::words(seq!["-i"@]) + output::path(artwork->0)
    } else {
        Seq::empty()
    }) + output::words(seq!["-map"@, "0:a:0"@]) + (if cover {
        output::cover_args()
    } else {
        Seq::empty()
    }) + output::words(seq!["-c:a"@, "copy"@]) + output::metadata_args(tags) + output::path(
        temp_path,
    )
}

/// The arguments of the FFmpeg that copies the recording `input_path` to
/// `temp_path` and embeds what is known of the track.
pub fn embed_metadata<'a>(
    input_path: &'a PathBuf,
    info: &'a TrackInfo,
    format: Format,
    temp_path: &'a PathBuf,
) -> (r: Vec<Arg<'a>>)
    ensures
        output::args_view(r@) == embed_args(
            *input_path,
            match info.artwork {
                Some(artwork) => Some(artwork.0),
                None => None,
            },
            info.tags@,
            format,
            *temp_path,
        ),
{
    let mut args: Vec<Arg<'a>> = Vec::new();
    let input = ["-hide_banner", "-loglevel", "error", "-nostdin", "-y", "-i"];
    output::push_words(&mut args, &input);
    output::push_path(&mut args, input_path);
    if let Some(artwork) = &info.artwork {
        if format.supports_artwork() {
            let second = ["-i"];
            output::push_words(&mut args, &second);
            output::push_path(&mut args, &artwork.0);
            assert(text::slices(second@) =~= seq!["-i"@]);
        }
    }
    let map = ["-map", "0:a:0"];
    output::push_words(&mut args, &map);
    if info.artwork.is_some() && format.supports_artwork() {
        output::push_cover(&mut args);
    }
    let copy = ["-c:a", "copy"];
    output::push_words(&mut args, &copy);
    output::push_metadata(&mut args, &info.tags);
    output::push_path(&mut args, temp_path);
    assert(text::slices(input@) =~= seq![
        "-hide_banner"@,
        "-loglevel"@,
        "error"@,
        "-nostdin"@,
        "-y"@,
        "-i"@,
    ]);
    assert(text::slices(map@) =~= seq!["-map"@, "0:a:0"@]);
    assert(text::slices(copy@) =~= seq!["-c:a"@, "copy"@]);
    assert(output::args_view(args@) =~= embed_args(
        *input_path,
        match info.artwork {
            Some(artwork) => Some(artwork.0),
            None => None,
        },
        info.tags@,
        format,
        *temp_path,
    ));
    args
}

/// What the user is told where nothing could be embedded.
pub open spec fn embed_warning(stderr: Seq<u8>) -> Seq<char> {
    "Metadata embedding warning: "@ + text::trim_white(codec::utf8_lossy(stderr))
}

/// What becomes of a recording after FFmpeg copied and tagged it.
#[derive(Debug)]
pub enum EmbedOutcome {
    /// The tagged copy takes its place.
    Replace,
    /// It stays as it is, and the user is told this.
    Keep(String),
}

/// What becomes of a recording, going by how the FFmpeg ended that was to tag it,
/// and what it complained of.
pub fn embed_outcome(success: bool, stderr: &[u8]) -> (r: EmbedOutcome)
    ensures
        r is Replace <==> success,
        r matches EmbedOutcome::Keep(words) ==> words@ == embed_warning(stderr@),
{
    if success {
        return EmbedOutcome::Replace;
    }
    let said = codec::read_lossy(stderr);
    let said = text::chars_of(said.as_str());
    let said = text::string_of(text::trim(text::Charset::White, said.as_slice()));
    EmbedOutcome::Keep("Metadata embedding warning: ".to_owned().concat(said.as_str()))
}

/// The recording of a track is one component of a path, and no hidden one, so it
/// stays in its folder; and it is short enough for Linux, which takes 255 bytes.
pub proof fn law_recording_stays_in_folder(name: Seq<char>, format: Format)
    ensures
        forall|i: int|
            0 <= i < output_file(name, format).len() ==> output_file(name, format)[i] != '/',
        output_file(name, format).len() > 0,
        output_file(name, format)[0] != '.',
        text::size(output_file(name, format)) <= 255,
{
    let base = metadata::file_name(name);
    metadata::law_file_name_is_safe(name);
    reveal_strlit(".");
    reveal_strlit("mp3");
    reveal_strlit("flac");
    reveal_strlit("wav");
    let end = output::extension_of(format);
    text::lemma_size_ascii("."@);
    text::lemma_size_ascii(end);
    text::lemma_size_concat(base, "."@);
    text::lemma_size_concat(base + "."@, end);
    assert forall|i: int| 0 <= i < output_file(name, format).len() implies output_file(
        name,
        format,
    )[i] != '/' by {
        if i < base.len() {
            assert(output_file(name, format)[i] == base[i]);
            assert(!metadata::forbidden(base[i]));
        }
    }
    assert(output_file(name, format)[0] == base[0]);
}

/// How long a track is, in minutes and seconds.
pub open spec fn clock(duration_ms: nat) -> Seq<char> {
    let seconds = duration_ms / 1000;
    text::decimal(seconds / 60) + (if seconds % 60 < 10 {
        ":0"@
    } else {
        ":"@
    }) + text::decimal(seconds % 60)
}

/// How long a track is, in minutes and seconds.
pub fn duration_display(duration_ms: u64) -> (r: String)
    ensures
        r@ == clock(duration_ms as nat),
{
    let seconds: u64 = duration_ms / 1000;
    let minutes = text::number((seconds / 60) as u128);
    let separator = if seconds % 60 < 10 {
        ":0"
    } else {
        ":"
    };
    minutes.concat(separator).concat(text::number((seconds % 60) as u128).as_str())
}

// ---------------------------------------------------------------------------
// The session
// ---------------------------------------------------------------------------

/// How often Spotify's audio is searched for again after it was not found.
pub const SEARCHES: u32 = 20;

/// How long, in seconds, Spotify is given to start playing.
pub const START_PATIENCE_SECONDS: u64 = 15;

/// What a session does next.
#[derive(Clone, Copy, Debug, PartialEq, Eq, Structural)]
pub enum Step {
    /// Ask whether Spotify Desktop runs.
    CheckRunning,
    /// Find out what is known of the track.
    LoadMetadata,
    /// Create the silent sink.
    CreateSink,
    /// Search for Spotify's audio.
    FindStream,
    /// Open the track, so that Spotify makes audio.
    WakeSpotify,
    /// Wait for Spotify's audio.
    AwaitStream,
    /// Search for Spotify's audio again.
    SearchStream,
    /// Pause Spotify, whose audio was found.
    PauseFound,
    /// Redirect Spotify's audio to the sink.
    Redirect,
    /// Create the folder for the recording.
    CreateFolder,
    /// Look whether there is a file of the recording's name.
    LookForOutput,
    /// Open the track.
    OpenTrack,
    /// Wait for Spotify to load the track.
    AwaitTrack,
    /// Pause the track.
    PauseTrack,
    /// Go to the beginning of the track.
    SeekToStart,
    /// Wait for Spotify to go there.
    AwaitStart,
    /// Start the recording.
    StartCapture,
    /// Play the track.
    Play,
    /// Wait until Spotify plays the track.
    AwaitPlaying,
    /// Ask how long the track is.
    ReadDuration,
    /// Watch the track until it ends.
    Record,
    /// Pause Spotify after the track.
    PauseSpotify,
    /// Wait for the end to be recorded.
    AwaitSilence,
    /// Stop the recording.
    StopCapture,
    /// Let Spotify's audio be heard again.
    RestoreAudio,
    /// Look how large the recording is.
    MeasureOutput,
    /// Make a copy of the recording with the tags and the cover.
    EmbedMetadata,
    /// Put the copy in the place of the recording.
    ReplaceOutput,
    /// Report that the recording is complete.
    Report,
    /// End the recording on the way out.
    KillCapture,
    /// Remove what was recorded.
    RemoveOutput,
    /// Let Spotify's audio be heard again on the way out.
    RestoreOnExit,
    /// Destroy the sink.
    DestroySink,
    /// Nothing: the session is over.
    Over,
}

/// What came of a step.
#[derive(Debug)]
pub enum Event {
    /// It was done.
    Done,
    /// It failed for this reason.
    Failed(String),
    /// It was a question, and this is the answer.
    Answer(bool),
    /// It measured so much: milliseconds of the track, bytes of the recording.
    Amount(u64),
    /// It gave this node.
    Node(u32),
    /// It gave a track of this name, with or without something to embed.
    Track(String, bool),
    /// The user gave up.
    Cancelled,
}

/// Why a session fails.
#[derive(Debug)]
pub enum SessionError {
    /// Spotify Desktop does not run.
    NotRunning,
    /// There is no sink.
    Sink(String),
    /// Spotify's audio was not found.
    NoStream(String),
    /// The folder for the recording was not created.
    Folder(String),
    /// There is a file of the recording's name.
    OutputExists,
    /// The recording did not start.
    Capture(String),
    /// Spotify did not play.
    NotPlaying(String),
    /// It is not known how long the track is.
    NoDuration,
    /// The user gave up.
    Cancelled,
    /// The recording could not be stopped.
    Stop(String),
    /// There is no recording.
    Missing(String),
    /// The recording is empty.
    Empty,
    /// Another step failed.
    Step(String),
}

impl SessionError {
    /// The error in words; `output` is the file that was recorded to.
    pub open spec fn words(self, output: Seq<char>) -> Seq<char> {
        match self {
            SessionError::NotRunning =>
                "Spotify Desktop is not running. Start Spotify and play any song first"@,
            SessionError::Sink(cause) =>
                "Failed to create PipeWire null sink for silent capture: "@ + cause@,
            SessionError::NoStream(cause) =>
                "Could not find Spotify's audio in PipeWire. Make sure Spotify Desktop is running: "@
                + cause@,
            SessionError::Folder(cause) => "Could not create output folder: "@ + cause@,
            SessionError::OutputExists => "Output file already exists: "@ + output,
            SessionError::Capture(cause) => "Failed to start audio capture: "@ + cause@,
            SessionError::NotPlaying(cause) =>
                "Spotify did not start playing the track in time: "@ + cause@,
            SessionError::NoDuration => "Track has no duration information"@,
            SessionError::Cancelled => "Capture cancelled; no file was saved"@,
            SessionError::Stop(cause) => "Failed to stop capture process: "@ + cause@,
            SessionError::Missing(cause) => "Capture output file was not created: "@ + cause@,
            SessionError::Empty => "Capture output file is empty; no audio was recorded"@,
            SessionError::Step(cause) => cause@,
        }
    }

    /// The error in words; `output` is the file that was recorded to.
    pub fn message(&self, output: &str) -> (r: String)
        ensures
            r@ == self.words(output@),
    {
        match self {
            SessionError::NotRunning =>
                "Spotify Desktop is not running. Start Spotify and play any song first".to_owned(),
            SessionError::Sink(cause) =>
                "Failed to create PipeWire null sink for silent capture: ".to_owned().concat(
                cause.as_str(),
            ),
            SessionError::NoStream(cause) =>
                "Could not find Spotify's audio in PipeWire. Make sure Spotify Desktop is running: ".to_owned().concat(
            cause.as_str()),
            SessionError::Folder(cause) => "Could not create output folder: ".to_owned().concat(
                cause.as_str(),
            ),
            SessionError::OutputExists => "Output file already exists: ".to_owned().concat(output),
            SessionError::Capture(cause) => "Failed to start audio capture: ".to_owned().concat(
                cause.as_str(),
            ),
            SessionError::NotPlaying(cause) =>
                "Spotify did not start playing the track in time: ".to_owned().concat(
                cause.as_str(),
            ),
            SessionError::NoDuration => "Track has no duration information".to_owned(),
            SessionError::Cancelled => "Capture cancelled; no file was saved".to_owned(),
            SessionError::Stop(cause) => "Failed to stop capture process: ".to_owned().concat(
                cause.as_str(),
            ),
            SessionError::Missing(cause) =>
                "Capture output file was not created: ".to_owned().concat(cause.as_str()),
            SessionError::Empty =>
                "Capture output file is empty; no audio was recorded".to_owned(),
            SessionError::Step(cause) => cause.clone(),
        }
    }
}

/// A session: what it does next and what it has learnt.
#[derive(Debug)]
pub struct Session {
    pub step: Step,
    /// How often Spotify's audio was searched for again.
    pub searches: u32,
    /// Why it was not found at first.
    pub not_found: String,
    /// What the track is called.
    pub name: String,
    /// There is something to embed.
    pub tagged: bool,
    /// The node of the sink.
    pub sink: u32,
    /// The node of Spotify's audio.
    pub stream: u32,
    /// How long the track is.
    pub duration_ms: u64,
    /// Why watching the track failed.
    pub unwatched: Option<String>,
    /// Why the session fails.
    pub error: Option<SessionError>,
}

/// What follows the steps whose failure changes nothing, whatever the session has
/// learnt.
pub open spec fn best_effort(step: Step) -> Option<Step> {
    match step {
        Step::WakeSpotify => Some(Step::AwaitStream),
        Step::AwaitStream => Some(Step::SearchStream),
        Step::PauseFound => Some(Step::Redirect),
        Step::AwaitTrack => Some(Step::PauseTrack),
        Step::PauseTrack => Some(Step::SeekToStart),
        Step::SeekToStart => Some(Step::AwaitStart),
        Step::AwaitStart => Some(Step::StartCapture),
        Step::Play => Some(Step::AwaitPlaying),
        Step::PauseSpotify => Some(Step::AwaitSilence),
        Step::AwaitSilence => Some(Step::StopCapture),
        Step::Report => Some(Step::RestoreOnExit),
        Step::RemoveOutput => Some(Step::RestoreOnExit),
        Step::RestoreOnExit => Some(Step::DestroySink),
        Step::DestroySink => Some(Step::Over),
        _ => None,
    }
}

/// The event is one that can come of the step.
pub open spec fn fits(step: Step, event: Event) -> bool {
    match step {
        Step::CheckRunning | Step::LookForOutput => event is Answer,
        Step::LoadMetadata => event is Track,
        Step::CreateSink | Step::FindStream | Step::SearchStream => event is Node
            || event is Failed,
        Step::ReadDuration | Step::MeasureOutput => event is Amount || event is Failed,
        Step::EmbedMetadata => event is Answer || event is Failed,
        Step::Record => event is Done || event is Failed || event is Cancelled,
        Step::Over => false,
        _ => event is Done || event is Failed,
    }
}

impl Session {
    /// The session goes on with a step.
    pub open spec fn at(self, step: Step) -> Session {
        Session { step, ..self }
    }

    /// The session fails, and leaves by a step.
    pub open spec fn failing(self, error: SessionError, step: Step) -> Session {
        Session { step, error: Some(error), ..self }
    }

    /// The session after its step, of which the event came. An event that cannot
    /// come of the step changes nothing.
    pub open spec fn after(self, event: Event) -> Session {
        if !fits(self.step, event) {
            self
        } else if best_effort(self.step) is Some {
            self.at(best_effort(self.step)->0)
        } else {
            match (self.step, event) {
                (Step::CheckRunning, Event::Answer(runs)) => if runs {
                    self.at(Step::LoadMetadata)
                } else {
                    self.failing(SessionError::NotRunning, Step::Over)
                },
                (Step::LoadMetadata, Event::Track(name, tagged)) => Session {
                    step: Step::CreateSink,
                    name,
                    tagged,
                    ..self
                },
                (Step::CreateSink, Event::Node(sink)) => Session {
                    step: Step::FindStream,
                    sink,
                    ..self
                },
                (Step::CreateSink, Event::Failed(cause)) => self.failing(
                    SessionError::Sink(cause),
                    Step::Over,
                ),
                (Step::FindStream, Event::Node(stream)) => Session {
                    step: Step::Redirect,
                    stream,
                    ..self
                },
                (Step::FindStream, Event::Failed(cause)) => Session {
                    step: Step::WakeSpotify,
                    not_found: cause,
                    ..self
                },
                (Step::SearchStream, Event::Node(stream)) => Session {
                    step: Step::PauseFound,
                    stream,
                    ..self
                },
                (Step::SearchStream, Event::Failed(_)) => if self.searches < SEARCHES - 1 {
                    Session {
                        step: Step::AwaitStream,
                        searches: (self.searches + 1) as u32,
                        ..self
                    }
                } else {
                    self.failing(SessionError::NoStream(self.not_found), Step::DestroySink)
                },
                (Step::Redirect, Event::Done) => self.at(Step::CreateFolder),
                (Step::Redirect, Event::Failed(cause)) => self.failing(
                    SessionError::Step(cause),
                    Step::DestroySink,
                ),
                (Step::CreateFolder, Event::Done) => self.at(Step::LookForOutput),
                (Step::CreateFolder, Event::Failed(cause)) => self.failing(
                    SessionError::Folder(cause),
                    Step::RestoreOnExit,
                ),
                (Step::LookForOutput, Event::Answer(exists)) => if exists {
                    self.failing(SessionError::OutputExists, Step::RestoreOnExit)
                } else {
                    self.at(Step::OpenTrack)
                },
                (Step::OpenTrack, Event::Done) => self.at(Step::AwaitTrack),
                (Step::OpenTrack, Event::Failed(cause)) => self.failing(
                    SessionError::Step(cause),
                    Step::RestoreOnExit,
                ),
                (Step::StartCapture, Event::Done) => self.at(Step::Play),
                (Step::StartCapture, Event::Failed(cause)) => self.failing(
                    SessionError::Capture(cause),
                    Step::RestoreOnExit,
                ),
                (Step::AwaitPlaying, Event::Done) => self.at(Step::ReadDuration),
                (Step::AwaitPlaying, Event::Failed(cause)) => self.failing(
                    SessionError::NotPlaying(cause),
                    Step::KillCapture,
                ),
                (Step::ReadDuration, Event::Amount(duration_ms)) => if duration_ms > 0 {
                    Session { step: Step::Record, duration_ms, ..self }
                } else {
                    self.failing(SessionError::NoDuration, Step::KillCapture)
                },
                (Step::ReadDuration, Event::Failed(cause)) => self.failing(
                    SessionError::Step(cause),
                    Step::KillCapture,
                ),
                (Step::Record, Event::Done) => self.at(Step::PauseSpotify),
                (Step::Record, Event::Failed(cause)) => Session {
                    step: Step::PauseSpotify,
                    unwatched: Some(cause),
                    ..self
                },
                (Step::Record, Event::Cancelled) => self.failing(
                    SessionError::Cancelled,
                    Step::KillCapture,
                ),
                (Step::StopCapture, Event::Done) => self.at(Step::RestoreAudio),
                (Step::StopCapture, Event::Failed(cause)) => self.failing(
                    SessionError::Stop(cause),
                    Step::RestoreOnExit,
                ),
                (Step::RestoreAudio, Event::Done) => match self.unwatched {
                    Some(cause) => self.failing(SessionError::Step(cause), Step::RestoreOnExit),
                    None => self.at(Step::MeasureOutput),
                },
                (Step::RestoreAudio, Event::Failed(cause)) => self.failing(
                    SessionError::Step(cause),
                    Step::RestoreOnExit,
                ),
                (Step::MeasureOutput, Event::Amount(size)) => if size == 0 {
                    self.failing(SessionError::Empty, Step::RestoreOnExit)
                } else if self.tagged {
                    self.at(Step::EmbedMetadata)
                } else {
                    self.at(Step::Report)
                },
                (Step::MeasureOutput, Event::Failed(cause)) => self.failing(
                    SessionError::Missing(cause),
                    Step::RestoreOnExit,
                ),
                // Where FFmpeg could not tag it, the recording stays as it is.
                (Step::EmbedMetadata, Event::Answer(tagged)) => if tagged {
                    self.at(Step::ReplaceOutput)
                } else {
                    self.at(Step::Report)
                },
                (Step::EmbedMetadata, Event::Failed(cause)) => self.failing(
                    SessionError::Step(cause),
                    Step::RestoreOnExit,
                ),
                (Step::ReplaceOutput, Event::Done) => self.at(Step::Report),
                (Step::ReplaceOutput, Event::Failed(cause)) => self.failing(
                    SessionError::Step(cause),
                    Step::RestoreOnExit,
                ),
                // A cancelled session saves no file.
                (Step::KillCapture, _) => if self.error == Some(SessionError::Cancelled) {
                    self.at(Step::RemoveOutput)
                } else {
                    self.at(Step::RestoreOnExit)
                },
                _ => self,
            }
        }
    }

    /// A session that has not begun.
    pub open spec fn fresh(self) -> bool {
        &&& self.step == Step::CheckRunning
        &&& self.searches == 0
        &&& self.unwatched is None
        &&& self.error is None
    }

    /// A new session, which has learnt nothing yet.
    pub fn new() -> (r: Session)
        ensures
            r.fresh(),
            r.not_found@.len() == 0,
            r.name@.len() == 0,
            !r.tagged,
            r.sink == 0,
            r.stream == 0,
            r.duration_ms == 0,
    {
        Session {
            step: Step::CheckRunning,
            searches: 0,
            not_found: String::new(),
            name: String::new(),
            tagged: false,
            sink: 0,
            stream: 0,
            duration_ms: 0,
            unwatched: None,
            error: None,
        }
    }

    fn go(self, step: Step) -> (r: Session)
        ensures
            r == self.at(step),
    {
        Session { step, ..self }
    }

    fn fail(self, error: SessionError, step: Step) -> (r: Session)
        ensures
            r == self.failing(error, step),
    {
        Session { step, error: Some(error), ..self }
    }

    /// The session after its step, of which the event came.
    #[verifier::rlimit(60)]
    pub fn next(self, event: Event) -> (r: Session)
        ensures
            r == self.after(event),
    {
        match self.step {
            Step::CheckRunning => match event {
                Event::Answer(true) => self.go(Step::LoadMetadata),
                Event::Answer(false) => self.fail(SessionError::NotRunning, Step::Over),
                _ => self,
            },
            Step::LoadMetadata => match event {
                Event::Track(name, tagged) => Session {
                    step: Step::CreateSink,
                    name,
                    tagged,
                    ..self
                },
                _ => self,
            },
            Step::CreateSink => match event {
                Event::Node(sink) => Session { step: Step::FindStream, sink, ..self },
                Event::Failed(cause) => self.fail(SessionError::Sink(cause), Step::Over),
                _ => self,
            },
            Step::FindStream => match event {
                Event::Node(stream) => Session { step: Step::Redirect, stream, ..self },
                Event::Failed(cause) => Session {
                    step: Step::WakeSpotify,
                    not_found: cause,
                    ..self
                },
                _ => self,
            },
            Step::SearchStream => match event {
                Event::Node(stream) => Session { step: Step::PauseFound, stream, ..self },
                Event::Failed(_) => {
                    if self.searches < SEARCHES - 1 {
                        let searches: u32 = self.searches + 1;
                        Session { step: Step::AwaitStream, searches, ..self }
                    } else {
                        let cause = self.not_found.clone();
                        self.fail(SessionError::NoStream(cause), Step::DestroySink)
                    }
                },
                _ => self,
            },
            Step::Redirect => match event {
                Event::Done => self.go(Step::CreateFolder),
                Event::Failed(cause) => self.fail(SessionError::Step(cause), Step::DestroySink),
                _ => self,
            },
            Step::CreateFolder => match event {
                Event::Done => self.go(Step::LookForOutput),
                Event::Failed(cause) => self.fail(
                    SessionError::Folder(cause),
                    Step::RestoreOnExit,
                ),
                _ => self,
            },
            Step::LookForOutput => match event {
                Event::Answer(true) => self.fail(SessionError::OutputExists, Step::RestoreOnExit),
                Event::Answer(false) => self.go(Step::OpenTrack),
                _ => self,
            },
            Step::OpenTrack => match event {
                Event::Done => self.go(Step::AwaitTrack),
                Event::Failed(cause) => self.fail(SessionError::Step(cause), Step::RestoreOnExit),
                _ => self,
            },
            Step::StartCapture => match event {
                Event::Done => self.go(Step::Play),
                Event::Failed(cause) => self.fail(
                    SessionError::Capture(cause),
                    Step::RestoreOnExit,
                ),
                _ => self,
            },
            Step::AwaitPlaying => match event {
                Event::Done => self.go(Step::ReadDuration),
                Event::Failed(cause) => self.fail(
                    SessionError::NotPlaying(cause),
                    Step::KillCapture,
                ),
                _ => self,
            },
            Step::ReadDuration => match event {
                Event::Amount(duration_ms) => {
                    if duration_ms > 0 {
                        Session { step: Step::Record, duration_ms, ..self }
                    } else {
                        self.fail(SessionError::NoDuration, Step::KillCapture)
                    }
                },
                Event::Failed(cause) => self.fail(SessionError::Step(cause), Step::KillCapture),
                _ => self,
            },
            Step::Record => match event {
                Event::Done => self.go(Step::PauseSpotify),
                Event::Failed(cause) => Session {
                    step: Step::PauseSpotify,
                    unwatched: Some(cause),
                    ..self
                },
                Event::Cancelled => self.fail(SessionError::Cancelled, Step::KillCapture),
                _ => self,
            },
            Step::StopCapture => match event {
                Event::Done => self.go(Step::RestoreAudio),
                Event::Failed(cause) => self.fail(SessionError::Stop(cause), Step::RestoreOnExit),
                _ => self,
            },
            Step::RestoreAudio => match event {
                Event::Done => match &self.unwatched {
                    Some(cause) => {
                        let cause = cause.clone();
                        self.fail(SessionError::Step(cause), Step::RestoreOnExit)
                    },
                    None => self.go(Step::MeasureOutput),
                },
                Event::Failed(cause) => self.fail(SessionError::Step(cause), Step::RestoreOnExit),
                _ => self,
            },
            Step::MeasureOutput => match event {
                Event::Amount(size) => {
                    if size == 0 {
                        self.fail(SessionError::Empty, Step::RestoreOnExit)
                    } else if self.tagged {
                        self.go(Step::EmbedMetadata)
                    } else {
                        self.go(Step::Report)
                    }
                },
                Event::Failed(cause) => self.fail(
                    SessionError::Missing(cause),
                    Step::RestoreOnExit,
                ),
                _ => self,
            },
            Step::EmbedMetadata => match event {
                Event::Answer(true) => self.go(Step::ReplaceOutput),
                Event::Answer(false) => self.go(Step::Report),
                Event::Failed(cause) => self.fail(SessionError::Step(cause), Step::RestoreOnExit),
                _ => self,
            },
            Step::ReplaceOutput => match event {
                Event::Done => self.go(Step::Report),
                Event::Failed(cause) => self.fail(SessionError::Step(cause), Step::RestoreOnExit),
                _ => self,
            },
            Step::WakeSpotify => self.regardless(event, Step::AwaitStream),
            Step::AwaitStream => self.regardless(event, Step::SearchStream),
            Step::PauseFound => self.regardless(event, Step::Redirect),
            Step::AwaitTrack => self.regardless(event, Step::PauseTrack),
            Step::PauseTrack => self.regardless(event, Step::SeekToStart),
            Step::SeekToStart => self.regardless(event, Step::AwaitStart),
            Step::AwaitStart => self.regardless(event, Step::StartCapture),
            Step::Play => self.regardless(event, Step::AwaitPlaying),
            Step::PauseSpotify => self.regardless(event, Step::AwaitSilence),
            Step::AwaitSilence => self.regardless(event, Step::StopCapture),
            Step::Report => self.regardless(event, Step::RestoreOnExit),
            Step::KillCapture => {
                if let Some(SessionError::Cancelled) = &self.error {
                    self.regardless(event, Step::RemoveOutput)
                } else {
                    self.regardless(event, Step::RestoreOnExit)
                }
            },
            Step::RemoveOutput => self.regardless(event, Step::RestoreOnExit),
            Step::RestoreOnExit => self.regardless(event, Step::DestroySink),
            Step::DestroySink => self.regardless(event, Step::Over),
            Step::Over => self,
        }
    }

    fn regardless(self, event: Event, step: Step) -> (r: Session)
        ensures
            r == (if event is Done || event is Failed {
                self.at(step)
            } else {
                self
            }),
    {
        match event {
            Event::Done | Event::Failed(_) => self.go(step),
            _ => self,
        }
    }
}

/// How long, in milliseconds, a step waits.
pub open spec fn pause_of(step: Step) -> u64 {
    match step {
        Step::AwaitStream => 150,
        Step::AwaitTrack => 400,
        Step::AwaitStart => 100,
        Step::AwaitSilence => 500,
        _ => 0,
    }
}

impl Step {
    /// How long, in milliseconds, the step waits.
    pub fn pause_ms(self) -> (r: u64)
        ensures
            r == pause_of(self),
    {
        match self {
            Step::AwaitStream => 150,
            Step::AwaitTrack => 400,
            Step::AwaitStart => 100,
            Step::AwaitSilence => 500,
            _ => 0,
        }
    }
}

/// A format by its name in capitals.
pub open spec fn format_title(format: Format) -> Seq<char> {
    match format {
        Format::Mp3 => "MP3"@,
        Format::Flac => "FLAC"@,
        Format::Wav => "WAV"@,
    }
}

/// What the user is told before a step.
pub open spec fn announced(session: Session, format: Format, bitrate: Bitrate) -> Seq<Seq<char>> {
    match session.step {
        Step::CheckRunning => seq!["Checking Spotify Desktop…"@],
        Step::LoadMetadata => seq!["Loading track metadata…"@],
        Step::CreateSink => seq!["Creating silent capture sink…"@],
        Step::FindStream => seq![
            "Null sink created (node "@ + text::decimal(session.sink as nat) + ")"@,
            "Finding Spotify audio stream…"@,
        ],
        Step::WakeSpotify => seq!["Waking up Spotify to create audio stream…"@],
        Step::Redirect => seq![
            "Found Spotify stream (node "@ + text::decimal(session.stream as nat) + ")"@,
            "Redirecting Spotify audio for silent capture…"@,
        ],
        Step::CreateFolder => seq![
            "Redirected Spotify (node "@ + text::decimal(session.stream as nat)
                + ") → null sink (node "@ + text::decimal(session.sink as nat) + ")"@,
        ],
        Step::OpenTrack => seq!["Preparing "@ + session.name@ + " in Spotify…"@],
        Step::StartCapture => seq![
            "Starting "@ + output::bitrate_label(bitrate) + " "@ + format_title(format)
                + " capture…"@,
        ],
        Step::Play => seq!["Recording "@ + session.name@ + "…"@],
        Step::Record => seq![
            "Recording "@ + session.name@ + " ("@ + clock(session.duration_ms as nat) + ")…"@,
        ],
        Step::PauseSpotify => seq!["Stopping capture…"@],
        Step::EmbedMetadata => seq!["Embedding metadata and artwork…"@],
        _ => Seq::empty(),
    }
}

fn one(s: String) -> (r: Vec<String>)
    ensures
        text::views(r@) == seq![s@],
{
    let mut list: Vec<String> = Vec::new();
    list.push(s);
    assert(text::views(list@) =~= seq![s@]);
    list
}

fn two(a: String, b: &str) -> (r: Vec<String>)
    ensures
        text::views(r@) == seq![a@, b@],
{
    let mut list: Vec<String> = Vec::new();
    list.push(a);
    list.push(b.to_owned());
    assert(text::views(list@) =~= seq![a@, b@]);
    list
}

impl Session {
    /// What the user is told before the step.
    pub fn announcements(&self, format: Format, bitrate: Bitrate) -> (r: Vec<String>)
        ensures
            text::views(r@) == announced(*self, format, bitrate),
    {
        match self.step {
            Step::CheckRunning => one("Checking Spotify Desktop…".to_owned()),
            Step::LoadMetadata => one("Loading track metadata…".to_owned()),
            Step::CreateSink => one("Creating silent capture sink…".to_owned()),
            Step::FindStream => two(
                "Null sink created (node ".to_owned().concat(
                    text::number(self.sink as u128).as_str(),
                ).concat(")"),
                "Finding Spotify audio stream…",
            ),
            Step::WakeSpotify => one("Waking up Spotify to create audio stream…".to_owned()),
            Step::Redirect => two(
                "Found Spotify stream (node ".to_owned().concat(
                    text::number(self.stream as u128).as_str(),
                ).concat(")"),
                "Redirecting Spotify audio for silent capture…",
            ),
            Step::CreateFolder => one(
                "Redirected Spotify (node ".to_owned().concat(
                    text::number(self.stream as u128).as_str(),
                ).concat(") → null sink (node ").concat(
                    text::number(self.sink as u128).as_str(),
                ).concat(")"),
            ),
            Step::OpenTrack => one(
                "Preparing ".to_owned().concat(self.name.as_str()).concat(" in Spotify…"),
            ),
            Step::StartCapture => {
                let title = match format {
                    Format::Mp3 => "MP3",
                    Format::Flac => "FLAC",
                    Format::Wav => "WAV",
                };
                one(
                    "Starting ".to_owned().concat(bitrate.label()).concat(" ").concat(
                        title,
                    ).concat(" capture…"),
                )
            },
            Step::Play => one("Recording ".to_owned().concat(self.name.as_str()).concat("…")),
            Step::Record => one(
                "Recording ".to_owned().concat(self.name.as_str()).concat(" (").concat(
                    duration_display(self.duration_ms).as_str(),
                ).concat(")…"),
            ),
            Step::PauseSpotify => one("Stopping capture…".to_owned()),
            Step::EmbedMetadata => one("Embedding metadata and artwork…".to_owned()),
            _ => {
                let none: Vec<String> = Vec::new();
                assert(text::views(none@) =~= Seq::<Seq<char>>::empty());
                none
            },
        }
    }
}

// ---------------------------------------------------------------------------
// Laws of the session
// ---------------------------------------------------------------------------

/// The session after all these events.
pub open spec fn run(start: Session, events: Seq<Event>) -> Session
    decreases events.len(),
{
    if events.len() == 0 {
        start
    } else {
        run(start, events.drop_last()).after(events.last())
    }
}

/// Each event is one that can come of the step that it answers.
pub open spec fn possible(start: Session, events: Seq<Event>) -> bool
    decreases events.len(),
{
    events.len() > 0 ==> {
        &&& possible(start, events.drop_last())
        &&& fits(run(start, events.drop_last()).step, events.last())
    }
}

/// What the steps have done outside the session. What was undone counts as undone
/// whether or not the undoing succeeded.
pub struct World {
    /// There is a sink.
    pub sink: bool,
    /// Spotify's audio goes to the sink.
    pub redirected: bool,
    /// The sink is recorded.
    pub recording: bool,
    /// There may be a file that the session has recorded to.
    pub file: bool,
    /// It was seen that no file has the recording's name.
    pub name_free: bool,
    /// Spotify was told to open the track.
    pub opened: bool,
    /// Spotify was told to go to the beginning of the track.
    pub rewound: bool,
    /// The track was watched to its end.
    pub ended: bool,
    /// The recording was seen to hold something.
    pub filled: bool,
    /// FFmpeg made a tagged copy of the recording.
    pub copied: bool,
    /// The tagged copy took the place of the recording.
    pub replaced: bool,
}

/// The world before a session.
pub open spec fn untouched() -> World {
    World {
        sink: false,
        redirected: false,
        recording: false,
        file: false,
        name_free: false,
        opened: false,
        rewound: false,
        ended: false,
        filled: false,
        copied: false,
        replaced: false,
    }
}

impl World {
    /// The world after a step of which an event came.
    pub open spec fn after(self, step: Step, event: Event) -> World {
        match step {
            Step::CreateSink => World { sink: event is Node, ..self },
            Step::DestroySink => World { sink: false, ..self },
            Step::Redirect => World { redirected: event is Done, ..self },
            Step::RestoreAudio | Step::RestoreOnExit => World { redirected: false, ..self },
            Step::StartCapture => World { recording: event is Done, file: event is Done, ..self },
            Step::RemoveOutput => World { file: false, ..self },
            Step::EmbedMetadata => World { copied: event == Event::Answer(true), ..self },
            Step::ReplaceOutput => World { replaced: event is Done, ..self },
            Step::StopCapture | Step::KillCapture => World { recording: false, ..self },
            Step::LookForOutput => World { name_free: event == Event::Answer(false), ..self },
            Step::OpenTrack => World { opened: event is Done, ..self },
            Step::SeekToStart => World { rewound: true, ..self },
            Step::Record => World { ended: event is Done, ..self },
            Step::MeasureOutput => World {
                filled: event is Amount && event->Amount_0 > 0,
                ..self
            },
            _ => self,
        }
    }
}

/// The world after all these events.
pub open spec fn world(start: Session, events: Seq<Event>) -> World
    decreases events.len(),
{
    if events.len() == 0 {
        untouched()
    } else {
        world(start, events.drop_last()).after(
            run(start, events.drop_last()).step,
            events.last(),
        )
    }
}

/// The steps at which there is a sink.
pub open spec fn with_sink(step: Step) -> bool {
    !(step == Step::CheckRunning || step == Step::LoadMetadata || step == Step::CreateSink || step
        == Step::Over)
}

/// The steps at which Spotify's audio is to be restored.
pub open spec fn with_redirection(step: Step) -> bool {
    &&& with_sink(step)
    &&& !(step == Step::FindStream || step == Step::WakeSpotify || step == Step::AwaitStream
        || step == Step::SearchStream || step == Step::PauseFound || step == Step::Redirect || step
        == Step::DestroySink)
}

/// The steps at which the sink is recorded.
pub open spec fn with_recording(step: Step) -> bool {
    step == Step::Play || step == Step::AwaitPlaying || step == Step::ReadDuration || step
        == Step::Record || step == Step::PauseSpotify || step == Step::AwaitSilence || step
        == Step::StopCapture || step == Step::KillCapture
}

/// The steps after the track was watched.
pub open spec fn watched(step: Step) -> bool {
    step == Step::PauseSpotify || step == Step::AwaitSilence || step == Step::StopCapture || step
        == Step::RestoreAudio || step == Step::MeasureOutput || step == Step::EmbedMetadata || step
        == Step::ReplaceOutput || step == Step::Report
}

/// What holds of a session and of the world at every time.
pub open spec fn accord(session: Session, world: World) -> bool {
    let step = session.step;
    &&& world.sink == with_sink(step)
    &&& world.redirected ==> with_redirection(step)
    &&& with_redirection(step) && !(step == Step::RestoreOnExit || step == Step::MeasureOutput
        || step == Step::EmbedMetadata || step == Step::ReplaceOutput || step == Step::Report)
        ==> world.redirected
    &&& world.recording == with_recording(step)
    &&& world.recording ==> world.name_free && world.opened && world.rewound
    &&& (step == Step::AwaitTrack || step == Step::PauseTrack || step == Step::SeekToStart || step
        == Step::AwaitStart || step == Step::StartCapture) ==> world.opened
    &&& (step == Step::AwaitStart || step == Step::StartCapture) ==> world.rewound
    &&& (step == Step::OpenTrack || step == Step::AwaitTrack || step == Step::PauseTrack || step
        == Step::SeekToStart || step == Step::AwaitStart || step == Step::StartCapture)
        ==> world.name_free
    &&& watched(step) ==> world.ended == (session.unwatched is None)
    &&& !watched(step) && session.error is None && !(step == Step::RestoreOnExit || step
        == Step::DestroySink || step == Step::Over) ==> session.unwatched is None
    &&& (step == Step::MeasureOutput || step == Step::EmbedMetadata || step == Step::ReplaceOutput
        || step == Step::Report) ==> world.ended
    &&& (step == Step::EmbedMetadata || step == Step::ReplaceOutput || step == Step::Report)
        ==> world.filled
    &&& world.replaced ==> world.copied
    &&& step == Step::ReplaceOutput ==> world.copied
    &&& world.copied ==> step == Step::ReplaceOutput || step == Step::Report || step
        == Step::RestoreOnExit || step == Step::DestroySink || step == Step::Over
    &&& session.error == Some(SessionError::Cancelled) && (step == Step::RestoreOnExit || step
        == Step::DestroySink || step == Step::Over) ==> !world.file
    &&& step == Step::RemoveOutput ==> world.name_free && session.error == Some(
        SessionError::Cancelled,
    )
    &&& (step == Step::RestoreOnExit || step == Step::DestroySink || step == Step::Over)
        && session.error is None ==> world.ended && world.filled && world.name_free
    &&& watched(step) ==> world.name_free
    &&& step == Step::KillCapture ==> session.error is Some
    &&& session.error is Some ==> step == Step::KillCapture || step == Step::RemoveOutput || step
        == Step::RestoreOnExit || step == Step::DestroySink || step == Step::Over
    &&& session.searches < SEARCHES
}

proof fn lemma_accord(start: Session, events: Seq<Event>)
    requires
        start.fresh(),
        possible(start, events),
    ensures
        accord(run(start, events), world(start, events)),
    decreases events.len(),
{
    if events.len() > 0 {
        lemma_accord(start, events.drop_last());
    }
}

/// Whatever comes of the steps, a session that is over has put everything back: the
/// sink is destroyed, Spotify's audio is restored, and nothing records.
pub proof fn law_session_cleans_up(start: Session, events: Seq<Event>)
    requires
        start.fresh(),
        possible(start, events),
        run(start, events).step == Step::Over,
    ensures
        !world(start, events).sink,
        !world(start, events).redirected,
        !world(start, events).recording,
{
    lemma_accord(start, events);
}

/// Spotify is recorded and played only while its audio is redirected to the sink,
/// so that nothing is heard; only where no file has the recording's name, so that
/// none is replaced; and only after the track was opened and Spotify told to go to
/// its beginning.
pub proof fn law_recording_is_silent_and_replaces_nothing(start: Session, events: Seq<Event>)
    requires
        start.fresh(),
        possible(start, events),
    ensures
        world(start, events).redirected ==> world(start, events).sink,
        world(start, events).recording ==> world(start, events).redirected && world(
            start,
            events,
        ).sink && world(start, events).name_free && world(start, events).opened && world(
            start,
            events,
        ).rewound,
        run(start, events).step == Step::Play ==> world(start, events).redirected && world(
            start,
            events,
        ).recording,
{
    lemma_accord(start, events);
}

/// A session that ends without an error has watched the track to its end and has
/// made a recording that is not empty.
pub proof fn law_success_means_recording(start: Session, events: Seq<Event>)
    requires
        start.fresh(),
        possible(start, events),
        run(start, events).step == Step::Over,
        run(start, events).error is None,
    ensures
        world(start, events).ended,
        world(start, events).filled,
        world(start, events).name_free,
{
    lemma_accord(start, events);
}

/// A session that was cancelled and is over has left no recording: what it had
/// recorded is removed. Nothing else is removed: no file had that name before.
pub proof fn law_cancelled_session_saves_nothing(start: Session, events: Seq<Event>)
    requires
        start.fresh(),
        possible(start, events),
    ensures
        run(start, events).step == Step::Over && run(start, events).error == Some(
            SessionError::Cancelled,
        ) ==> !world(start, events).file,
        run(start, events).step == Step::RemoveOutput ==> world(start, events).name_free
            && run(start, events).error == Some(SessionError::Cancelled),
{
    lemma_accord(start, events);
}

/// A recording that FFmpeg could not tag stays as it is, and the session goes on
/// without an error; only a complete tagged copy ever takes its place.
pub proof fn law_failed_tagging_keeps_recording(start: Session, events: Seq<Event>)
    requires
        start.fresh(),
        possible(start, events),
    ensures
        world(start, events).replaced ==> world(start, events).copied,
        run(start, events).step == Step::ReplaceOutput ==> world(start, events).copied,
        run(start, events).step == Step::EmbedMetadata ==> run(
            start,
            events.push(Event::Answer(false)),
        ) == run(start, events).at(Step::Report) && !world(
            start,
            events.push(Event::Answer(false)),
        ).replaced,
{
    lemma_accord(start, events);
    let more = events.push(Event::Answer(false));
    assert(more.drop_last() =~= events);
}

/// How many steps are left at most.
pub open spec fn steps_left(session: Session) -> nat {
    let again = 2 * (SEARCHES - session.searches);
    (match session.step {
        Step::CheckRunning => 29 + again,
        Step::LoadMetadata => 28 + again,
        Step::CreateSink => 27 + again,
        Step::FindStream => 26 + again,
        Step::WakeSpotify => 25 + again,
        Step::AwaitStream => 24 + again,
        Step::SearchStream => 23 + again,
        Step::PauseFound => 24,
        Step::Redirect => 23,
        Step::CreateFolder => 22,
        Step::LookForOutput => 21,
        Step::OpenTrack => 20,
        Step::AwaitTrack => 19,
        Step::PauseTrack => 18,
        Step::SeekToStart => 17,
        Step::AwaitStart => 16,
        Step::StartCapture => 15,
        Step::Play => 14,
        Step::AwaitPlaying => 13,
        Step::ReadDuration => 12,
        Step::Record => 11,
        Step::PauseSpotify => 10,
        Step::AwaitSilence => 9,
        Step::StopCapture => 8,
        Step::RestoreAudio => 7,
        Step::MeasureOutput => 6,
        Step::EmbedMetadata => 5,
        Step::ReplaceOutput => 4,
        Step::Report => 3,
        Step::KillCapture => 4,
        Step::RemoveOutput => 3,
        Step::RestoreOnExit => 2,
        Step::DestroySink => 1,
        Step::Over => 0,
    }) as nat
}

proof fn lemma_progress(start: Session, events: Seq<Event>)
    requires
        start.fresh(),
        possible(start, events),
    ensures
        steps_left(run(start, events)) + events.len() <= steps_left(start),
    decreases events.len(),
{
    if events.len() > 0 {
        lemma_progress(start, events.drop_last());
        lemma_accord(start, events.drop_last());
    }
}

/// Every session ends: no session takes more than 69 steps.
pub proof fn law_session_ends(start: Session, events: Seq<Event>)
    requires
        start.fresh(),
        possible(start, events),
    ensures
        events.len() <= 69,
        events.len() == 69 ==> run(start, events).step == Step::Over,
{
    lemma_progress(start, events);
    lemma_accord(start, events);
}

// ---------------------------------------------------------------------------
// Laws of the embedding
// ---------------------------------------------------------------------------

/// What the arguments that embed tags hold before the tags.
spec fn embed_opening(
    input_path: PathBuf,
    artwork: Option<PathBuf>,
    format: Format,
) -> Seq<ArgView> {
    let cover = artwork is Some && format != Format::Wav;
    output::words(
        seq!["-hide_banner"@, "-loglevel"@, "error"@, "-nostdin"@, "-y"@, "-i"@],
    ) + output::path(input_path) + (if cover {
        output::words(seq!["-i"@]) + output::path(artwork->0)
    } else {
        Seq::empty()
    }) + output::words(seq!["-map"@, "0:a:0"@]) + (if cover {
        output::cover_args()
    } else {
        Seq::empty()
    }) + output::words(seq!["-c:a"@, "copy"@])
}

proof fn lemma_embed_opening(input_path: PathBuf, artwork: Option<PathBuf>, format: Format)
    ensures
        output::without_tags(embed_opening(input_path, artwork, format)),
{
    reveal_strlit("-hide_banner");
    reveal_strlit("-loglevel");
    reveal_strlit("error");
    reveal_strlit("-nostdin");
    reveal_strlit("-y");
    reveal_strlit("-i");
    reveal_strlit("-map");
    reveal_strlit("0:a:0");
    reveal_strlit("-c:a");
    reveal_strlit("copy");
    assert("-loglevel"@[1] == 'l');
    let cover = artwork is Some && format != Format::Wav;
    let input = seq!["-hide_banner"@, "-loglevel"@, "error"@, "-nostdin"@, "-y"@, "-i"@];
    let second = if cover {
        output::words(seq!["-i"@]) + output::path(artwork->0)
    } else {
        Seq::empty()
    };
    let map = seq!["-map"@, "0:a:0"@];
    let picture = if cover {
        output::cover_args()
    } else {
        Seq::empty()
    };
    let copy = seq!["-c:a"@, "copy"@];
    output::lemma_words_without(input);
    output::lemma_words_without(seq!["-i"@]);
    output::lemma_words_without(map);
    output::lemma_words_without(copy);
    output::law_cover_sets_no_tag();
    assert(output::without_tags(second));
    let a = output::words(input) + output::path(input_path);
    output::lemma_without_join(output::words(input), output::path(input_path));
    output::lemma_without_join(a, second);
    output::lemma_without_join(a + second, output::words(map));
    output::lemma_without_join(a + second + output::words(map), picture);
    output::lemma_without_join(a + second + output::words(map) + picture, output::words(copy));
}

/// A tagged recording gets each tag under its own key, and no other value for it.
pub proof fn law_embedding_sets_each_tag(
    input_path: PathBuf,
    artwork: Option<PathBuf>,
    tags: MetadataView,
    format: Format,
    temp_path: PathBuf,
    value: Seq<char>,
)
    ensures
        ({
            let args = embed_args(input_path, artwork, tags, format, temp_path);
            &&& output::sets(args, "title"@, value) <==> tags.title == Some(value)
            &&& output::sets(args, "artist"@, value) <==> tags.artist == Some(value)
            &&& output::sets(args, "album"@, value) <==> tags.album == Some(value)
            &&& output::sets(args, "date"@, value) <==> tags.date == Some(value)
            &&& output::sets(args, "track"@, value) <==> tags.track == Some(value)
            &&& output::sets(args, "disc"@, value) <==> tags.disc == Some(value)
        }),
{
    let before = embed_opening(input_path, artwork, format);
    let after = output::path(temp_path);
    lemma_embed_opening(input_path, artwork, format);
    assert(embed_args(input_path, artwork, tags, format, temp_path) == before
        + output::metadata_args(tags) + after);
    output::law_each_tag_has_its_key(tags, value);
    output::law_other_arguments_set_nothing(before, tags, after, "title"@, value);
    output::law_other_arguments_set_nothing(before, tags, after, "artist"@, value);
    output::law_other_arguments_set_nothing(before, tags, after, "album"@, value);
    output::law_other_arguments_set_nothing(before, tags, after, "date"@, value);
    output::law_other_arguments_set_nothing(before, tags, after, "track"@, value);
    output::law_other_arguments_set_nothing(before, tags, after, "disc"@, value);
}

proof fn lemma_embed_opens(input_path: PathBuf, artwork: Option<PathBuf>, format: Format)
    ensures
        ({
            let args = embed_opening(input_path, artwork, format);
            let cover = artwork is Some && format != Format::Wav;
            let n = args.len() as int;
            &&& n == if cover {
                23int
            } else {
                11int
            }
            &&& args[4] == ArgView::Text("-y"@)
            &&& args[5] == ArgView::Text("-i"@)
            &&& args[6] == ArgView::Path(input_path)
            &&& output::followed(args, "-map"@, "0:a:0"@)
            &&& output::followed(args, "-c:a"@, "copy"@)
            &&& cover ==> {
                &&& args[7] == ArgView::Text("-i"@)
                &&& args[8] == ArgView::Path(artwork->0)
                &&& output::followed(args, "-map"@, "1:v:0"@)
                &&& output::followed(args, "-c:v"@, "copy"@)
                &&& output::followed(args, "-disposition:v:0"@, "attached_pic"@)
            }
            &&& !cover ==> forall|i: int| 0 <= i < n && i != 6 ==> (#[trigger] args[i]) is Text
        }),
{
    let args = embed_opening(input_path, artwork, format);
    let cover = artwork is Some && format != Format::Wav;
    let at: int = if cover {
        9
    } else {
        7
    };
    let end: int = if cover {
        21
    } else {
        9
    };
    assert(args[at] == ArgView::Text("-map"@) && args[at + 1] == ArgView::Text("0:a:0"@));
    assert(args[end] == ArgView::Text("-c:a"@) && args[end + 1] == ArgView::Text("copy"@));
    if cover {
        assert(args[11] == ArgView::Text("-map"@) && args[12] == ArgView::Text("1:v:0"@));
        assert(args[13] == ArgView::Text("-c:v"@) && args[14] == ArgView::Text("copy"@));
        assert(args[15] == ArgView::Text("-disposition:v:0"@) && args[16] == ArgView::Text(
            "attached_pic"@,
        ));
    }
}

/// To embed tags, the sound of the recording is copied as it is into the temporary
/// file. The cover is the second input and becomes the front cover; without one,
/// and in a WAV, which takes none, no other file is read.
pub proof fn law_embedding_copies_the_recording(
    input_path: PathBuf,
    artwork: Option<PathBuf>,
    tags: MetadataView,
    format: Format,
    temp_path: PathBuf,
)
    ensures
        ({
            let args = embed_args(input_path, artwork, tags, format, temp_path);
            let n = args.len() as int;
            &&& args[4] == ArgView::Text("-y"@)
            &&& args[5] == ArgView::Text("-i"@)
            &&& args[6] == ArgView::Path(input_path)
            &&& args[n - 1] == ArgView::Path(temp_path)
            &&& output::followed(args, "-map"@, "0:a:0"@)
            &&& output::followed(args, "-c:a"@, "copy"@)
            &&& artwork is Some && format != Format::Wav ==> {
                &&& args[7] == ArgView::Text("-i"@)
                &&& args[8] == ArgView::Path(artwork->0)
                &&& output::followed(args, "-map"@, "1:v:0"@)
                &&& output::followed(args, "-c:v"@, "copy"@)
                &&& output::followed(args, "-disposition:v:0"@, "attached_pic"@)
            }
            &&& artwork is None || format == Format::Wav ==> forall|i: int|
                0 <= i < n - 1 && i != 6 ==> (#[trigger] args[i]) is Text
        }),
{
    let before = embed_opening(input_path, artwork, format);
    let middle = output::metadata_args(tags);
    let rest = middle + output::path(temp_path);
    let none = Seq::<ArgView>::empty();
    let args = embed_args(input_path, artwork, tags, format, temp_path);
    lemma_embed_opens(input_path, artwork, format);
    output::lemma_tags_are_words(tags);
    assert(args == before + middle + output::path(temp_path));
    lemma_embed_rest(before, middle, temp_path);
    assert(none + before + rest =~= args);
    output::lemma_followed_within(none, before, rest, "-map"@, "0:a:0"@);
    output::lemma_followed_within(none, before, rest, "-c:a"@, "copy"@);
    if artwork is Some && format != Format::Wav {
        output::lemma_followed_within(none, before, rest, "-map"@, "1:v:0"@);
        output::lemma_followed_within(none, before, rest, "-c:v"@, "copy"@);
        output::lemma_followed_within(none, before, rest, "-disposition:v:0"@, "attached_pic"@);
    }
}

proof fn lemma_embed_rest(before: Seq<ArgView>, middle: Seq<ArgView>, temp_path: PathBuf)
    requires
        output::all_words(middle),
    ensures
        ({
            let args = before + middle + output::path(temp_path);
            &&& args[args.len() - 1] == ArgView::Path(temp_path)
            &&& forall|i: int| 0 <= i < before.len() ==> #[trigger] args[i] == before[i]
            &&& forall|i: int| before.len() <= i < args.len() - 1 ==> (#[trigger] args[i]) is Text
        }),
{
    let args = before + middle + output::path(temp_path);
    assert forall|i: int| before.len() <= i < args.len() - 1 implies (#[trigger] args[i]) is Text by {
        assert(args[i] == middle[i - before.len()]);
    }
}

// ---------------------------------------------------------------------------
// Laws of the steps of a session
// ---------------------------------------------------------------------------

/// The step that the session took `back` events ago.
pub open spec fn step_ago(start: Session, events: Seq<Event>, back: int) -> Step {
    run(start, events.take(events.len() - back)).step
}

proof fn lemma_step_ago(start: Session, events: Seq<Event>, back: int)
    requires
        0 <= back < events.len(),
    ensures
        run(start, events.take(events.len() - back)) == run(
            start,
            events.take(events.len() - back - 1),
        ).after(events[events.len() - back - 1]),
{
    let now = events.take(events.len() - back);
    assert(now.drop_last() =~= events.take(events.len() - back - 1));
    assert(now.last() == events[events.len() - back - 1]);
}

proof fn lemma_began(start: Session, events: Seq<Event>)
    requires
        start.fresh(),
        run(start, events).step != Step::CheckRunning,
    ensures
        events.len() > 0,
{
}

/// The part of a possible course that is over by now is possible.
proof fn lemma_possible_front(start: Session, events: Seq<Event>, n: int)
    requires
        possible(start, events),
        0 <= n <= events.len(),
    ensures
        possible(start, events.take(n)),
    decreases events.len(),
{
    if n == events.len() {
        assert(events.take(n) =~= events);
    } else {
        lemma_possible_front(start, events.drop_last(), n);
        assert(events.drop_last().take(n) =~= events.take(n));
    }
}

/// The step before, in a possible course.
proof fn lemma_one_step_back(start: Session, events: Seq<Event>, back: int)
    requires
        start.fresh(),
        possible(start, events),
        0 <= back <= events.len(),
        step_ago(start, events, back) != Step::CheckRunning,
    ensures
        back < events.len(),
        fits(step_ago(start, events, back + 1), events[events.len() - back - 1]),
        run(start, events.take(events.len() - back)) == run(
            start,
            events.take(events.len() - back - 1),
        ).after(events[events.len() - back - 1]),
{
    let now = events.take(events.len() - back);
    lemma_began(start, now);
    lemma_step_ago(start, events, back);
    lemma_possible_front(start, events, events.len() - back);
    assert(now.drop_last() =~= events.take(events.len() - back - 1));
    assert(now.last() == events[events.len() - back - 1]);
}

/// Where a session comes from at some of its steps, and by which event.
spec fn came_from(step: Step, before: Step, event: Event) -> bool {
    match step {
        Step::Play => before == Step::StartCapture && event is Done,
        Step::StartCapture => before == Step::AwaitStart,
        Step::AwaitStart => before == Step::SeekToStart,
        Step::SeekToStart => before == Step::PauseTrack,
        Step::PauseTrack => before == Step::AwaitTrack,
        Step::AwaitTrack => before == Step::OpenTrack && event is Done,
        Step::RestoreAudio => before == Step::StopCapture && event is Done,
        Step::StopCapture => before == Step::AwaitSilence,
        Step::AwaitSilence => before == Step::PauseSpotify,
        Step::PauseSpotify => before == Step::Record,
        Step::Record => before == Step::ReadDuration && event is Amount && event->Amount_0 > 0,
        Step::ReadDuration => before == Step::AwaitPlaying && event is Done,
        Step::AwaitPlaying => before == Step::Play,
        _ => true,
    }
}

proof fn lemma_came_from(session: Session, event: Event)
    requires
        fits(session.step, event),
    ensures
        came_from(session.after(event).step, session.step, event),
{
}

proof fn lemma_step_before(start: Session, events: Seq<Event>, back: int)
    requires
        start.fresh(),
        possible(start, events),
        0 <= back <= events.len(),
        step_ago(start, events, back) != Step::CheckRunning,
    ensures
        back < events.len(),
        came_from(
            step_ago(start, events, back),
            step_ago(start, events, back + 1),
            events[events.len() - back - 1],
        ),
{
    lemma_one_step_back(start, events, back);
    lemma_came_from(
        run(start, events.take(events.len() - back - 1)),
        events[events.len() - back - 1],
    );
}

/// The track is played only as the last of these steps, each directly after the
/// one before: the track is opened, given time, paused, taken to its beginning and
/// given time again, and the recording is started.
#[verifier::rlimit(60)]
pub proof fn law_recording_starts_at_the_beginning(start: Session, events: Seq<Event>)
    requires
        start.fresh(),
        possible(start, events),
        run(start, events).step == Step::Play,
    ensures
        events.len() >= 6,
        events[events.len() - 1] is Done,
        events[events.len() - 6] is Done,
        step_ago(start, events, 1) == Step::StartCapture,
        step_ago(start, events, 2) == Step::AwaitStart,
        step_ago(start, events, 3) == Step::SeekToStart,
        step_ago(start, events, 4) == Step::PauseTrack,
        step_ago(start, events, 5) == Step::AwaitTrack,
        step_ago(start, events, 6) == Step::OpenTrack,
{
    assert(events.take(events.len() as int) =~= events);
    lemma_step_before(start, events, 0);
    lemma_step_before(start, events, 1);
    lemma_step_before(start, events, 2);
    lemma_step_before(start, events, 3);
    lemma_step_before(start, events, 4);
    lemma_step_before(start, events, 5);
}

/// A track is watched only after it was played, found playing and found to have a
/// length; and whatever came of watching it, Spotify is paused, the end is given
/// time, the recording is stopped and Spotify's audio restored, in this order.
#[verifier::rlimit(60)]
pub proof fn law_recording_is_ended_in_order(start: Session, events: Seq<Event>)
    requires
        start.fresh(),
        possible(start, events),
        run(start, events).step == Step::RestoreAudio,
    ensures
        events.len() >= 7,
        events[events.len() - 1] is Done,
        events[events.len() - 5] is Amount && events[events.len() - 5]->Amount_0 > 0,
        events[events.len() - 6] is Done,
        step_ago(start, events, 1) == Step::StopCapture,
        step_ago(start, events, 2) == Step::AwaitSilence,
        step_ago(start, events, 3) == Step::PauseSpotify,
        step_ago(start, events, 4) == Step::Record,
        step_ago(start, events, 5) == Step::ReadDuration,
        step_ago(start, events, 6) == Step::AwaitPlaying,
        step_ago(start, events, 7) == Step::Play,
{
    assert(events.take(events.len() as int) =~= events);
    lemma_step_before(start, events, 0);
    lemma_step_before(start, events, 1);
    lemma_step_before(start, events, 2);
    lemma_step_before(start, events, 3);
    lemma_step_before(start, events, 4);
    lemma_step_before(start, events, 5);
    lemma_step_before(start, events, 6);
}

/// Spotify's audio is redirected once it was found: at the first search, or after
/// Spotify was woken, given time, searched again and paused.
pub proof fn law_audio_is_found_before_it_is_redirected(start: Session, events: Seq<Event>)
    requires
        start.fresh(),
        possible(start, events),
        run(start, events).step == Step::Redirect,
    ensures
        events.len() >= 1,
        step_ago(start, events, 1) == Step::FindStream || (events.len() >= 3 && step_ago(
            start,
            events,
            1,
        ) == Step::PauseFound && step_ago(start, events, 2) == Step::SearchStream && step_ago(
            start,
            events,
            3,
        ) == Step::AwaitStream),
        step_ago(start, events, 1) == Step::FindStream ==> events[events.len() - 1] == Event::Node(
            run(start, events).stream,
        ),
        step_ago(start, events, 1) == Step::PauseFound ==> events[events.len() - 2] == Event::Node(
            run(start, events).stream,
        ),
{
    assert(events.take(events.len() as int) =~= events);
    lemma_one_step_back(start, events, 0);
    if step_ago(start, events, 1) != Step::FindStream {
        lemma_one_step_back(start, events, 1);
        lemma_one_step_back(start, events, 2);
    }
}

/// The audio is searched for twenty times after Spotify was woken. Each time that
/// it is not found before the twentieth, it is waited for again; after the
/// twentieth the session fails for the reason of the first search.
pub proof fn law_audio_is_searched_twenty_times(session: Session, cause: String)
    requires
        session.step == Step::SearchStream,
    ensures
        session.searches + 1 < 20 ==> session.after(Event::Failed(cause)).step == Step::AwaitStream
            && session.after(Event::Failed(cause)).searches == session.searches + 1
            && session.after(Event::Failed(cause)).error == session.error,
        session.searches + 1 >= 20 ==> session.after(Event::Failed(cause)).step == Step::DestroySink
            && session.after(Event::Failed(cause)).error == Some(
            SessionError::NoStream(session.not_found),
        ),
{
}

/// A session learns each thing at one step, from what came of it, and forgets
/// nothing: the track's name and whether there is something to embed from its
/// metadata, the node of the sink when it is made, that of Spotify's audio when it
/// is found, and the length of the track while it plays.
pub proof fn law_session_remembers(session: Session, event: Event)
    requires
        fits(session.step, event),
    ensures
        ({
            let next = session.after(event);
            &&& session.step == Step::LoadMetadata ==> event == Event::Track(next.name, next.tagged)
            &&& session.step != Step::LoadMetadata ==> next.name == session.name && next.tagged
                == session.tagged
            &&& session.step == Step::CreateSink && event is Node ==> event == Event::Node(
                next.sink,
            )
            &&& session.step != Step::CreateSink ==> next.sink == session.sink
            &&& (session.step == Step::FindStream || session.step == Step::SearchStream)
                && event is Node ==> event == Event::Node(next.stream)
            &&& session.step != Step::FindStream && session.step != Step::SearchStream
                ==> next.stream == session.stream
            &&& session.step == Step::ReadDuration && event is Amount && event->Amount_0 > 0
                ==> event == Event::Amount(next.duration_ms)
            &&& session.step != Step::ReadDuration ==> next.duration_ms == session.duration_ms
            &&& session.step == Step::FindStream && event is Failed ==> event == Event::Failed(
                next.not_found,
            )
            &&& session.step != Step::FindStream ==> next.not_found == session.not_found
            &&& session.step == Step::Record && event is Failed ==> next.unwatched is Some && event
                == Event::Failed(next.unwatched->0)
            &&& session.step != Step::Record ==> next.unwatched == session.unwatched
            &&& session.step != Step::SearchStream ==> next.searches == session.searches
        }),
{
}

/// What makes a session fail at a step. Nothing else does: where Spotify cannot be
/// woken, paused or taken to the beginning of the track, and where FFmpeg could
/// not tag the recording, the session goes on.
pub open spec fn fatal(session: Session, event: Event) -> bool {
    match session.step {
        Step::CheckRunning => event == Event::Answer(false),
        Step::LookForOutput => event == Event::Answer(true),
        Step::SearchStream => event is Failed && session.searches >= 19,
        Step::ReadDuration => event is Failed || event == Event::Amount(0),
        Step::MeasureOutput => event is Failed || event == Event::Amount(0),
        Step::Record => event is Cancelled,
        Step::RestoreAudio => event is Failed || session.unwatched is Some,
        Step::CreateSink
        | Step::Redirect
        | Step::CreateFolder
        | Step::OpenTrack
        | Step::StartCapture
        | Step::AwaitPlaying
        | Step::StopCapture
        | Step::EmbedMetadata
        | Step::ReplaceOutput => event is Failed,
        _ => false,
    }
}

/// A session fails exactly when something that is fatal comes of a step, and the
/// error is that of the first such thing.
pub proof fn law_session_fails_for_a_cause(session: Session, event: Event)
    requires
        fits(session.step, event),
    ensures
        !fatal(session, event) ==> session.after(event).error == session.error,
        fatal(session, event) ==> session.after(event).error is Some,
        session.error is None ==> (session.after(event).error is Some <==> fatal(session, event)),
{
}

/// Each failure is told as what it is, with the cause that came of the step.
pub proof fn law_each_failure_has_its_error(session: Session, cause: String)
    ensures
        ({
            let next = session.after(Event::Failed(cause));
            &&& session.step == Step::CreateSink ==> next.error == Some(SessionError::Sink(cause))
            &&& session.step == Step::Redirect ==> next.error == Some(SessionError::Step(cause))
            &&& session.step == Step::CreateFolder ==> next.error == Some(
                SessionError::Folder(cause),
            )
            &&& session.step == Step::OpenTrack ==> next.error == Some(SessionError::Step(cause))
            &&& session.step == Step::StartCapture ==> next.error == Some(
                SessionError::Capture(cause),
            )
            &&& session.step == Step::AwaitPlaying ==> next.error == Some(
                SessionError::NotPlaying(cause),
            )
            &&& session.step == Step::ReadDuration ==> next.error == Some(
                SessionError::Step(cause),
            )
            &&& session.step == Step::StopCapture ==> next.error == Some(SessionError::Stop(cause))
            &&& session.step == Step::MeasureOutput ==> next.error == Some(
                SessionError::Missing(cause),
            )
            &&& session.step == Step::RestoreAudio || session.step == Step::EmbedMetadata
                || session.step == Step::ReplaceOutput ==> next.error == Some(
                SessionError::Step(cause),
            )
        }),
        session.step == Step::CheckRunning ==> session.after(Event::Answer(false)).error == Some(
            SessionError::NotRunning,
        ),
        session.step == Step::LookForOutput ==> session.after(Event::Answer(true)).error == Some(
            SessionError::OutputExists,
        ),
        session.step == Step::ReadDuration ==> session.after(Event::Amount(0)).error == Some(
            SessionError::NoDuration,
        ),
        session.step == Step::MeasureOutput ==> session.after(Event::Amount(0)).error == Some(
            SessionError::Empty,
        ),
        session.step == Step::Record ==> session.after(Event::Cancelled).error == Some(
            SessionError::Cancelled,
        ),
        session.step == Step::RestoreAudio && session.unwatched is Some ==> session.after(
            Event::Done,
        ).error == Some(SessionError::Step(session.unwatched->0)),
{
}

/// A session in which nothing fatal happens ends without an error.
pub proof fn law_session_without_failure_succeeds(start: Session, events: Seq<Event>)
    requires
        start.fresh(),
        possible(start, events),
        forall|i: int|
            0 <= i < events.len() ==> !fatal(run(start, #[trigger] events.take(i)), events[i]),
    ensures
        run(start, events).error is None,
    decreases events.len(),
{
    if events.len() > 0 {
        let front = events.drop_last();
        assert forall|i: int| 0 <= i < front.len() implies !fatal(
            run(start, #[trigger] front.take(i)),
            front[i],
        ) by {
            assert(front.take(i) =~= events.take(i));
        }
        law_session_without_failure_succeeds(start, front);
        assert(events.take(front.len() as int) =~= front);
        law_session_fails_for_a_cause(run(start, front), events.last());
    }
}

/// A recording that is not empty is tagged if and only if there is something to
/// embed, and a tagged copy takes its place.
pub proof fn law_what_is_known_is_embedded(session: Session, size: u64)
    requires
        size > 0,
    ensures
        session.step == Step::MeasureOutput ==> (session.after(Event::Amount(size)).step
            == Step::EmbedMetadata <==> session.tagged),
        session.step == Step::MeasureOutput && !session.tagged ==> session.after(
            Event::Amount(size),
        ).step == Step::Report,
        session.step == Step::EmbedMetadata ==> session.after(Event::Answer(true)).step
            == Step::ReplaceOutput,
        session.step == Step::ReplaceOutput ==> session.after(Event::Done).step == Step::Report,
{
}

// ---------------------------------------------------------------------------
// Laws of what a track is called
// ---------------------------------------------------------------------------

/// A track's name is its title, or its identifier where it has none; where there
/// is an artist, a dash between spaces and the artist follow.
pub proof fn law_name_of_a_track(tags: MetadataView, id: Seq<char>)
    ensures
        ({
            let name = display_name(tags, id);
            let title = if tags.title is Some {
                tags.title->0
            } else {
                id
            };
            let n = title.len() as int;
            &&& title.is_prefix_of(name)
            &&& tags.artist is None ==> name == title
            &&& tags.artist is Some ==> {
                &&& name.len() == n + 3 + tags.artist->0.len()
                &&& name[n] == ' ' && name[n + 1] == '-' && name[n + 2] == ' '
                &&& tags.artist->0.is_suffix_of(name)
            }
        }),
{
    reveal_strlit(" - ");
    if let Some(artist) = tags.artist {
        let name = display_name(tags, id);
        assert(name.subrange(name.len() - artist.len(), name.len() as int) =~= artist);
    }
}

/// What Spotify Desktop says of a track is used as far as it says it: an empty
/// title gives way to the identifier, and an empty artist or album is no tag. It
/// says nothing of the date and the numbers.
pub proof fn law_desktop_says_what_it_says(id: Seq<char>, meta: MprisView)
    ensures
        ({
            let tags = desktop_tags(id, meta);
            &&& tags.title == Some(meta.title) || (meta.title.len() == 0 && tags.title == Some(id))
            &&& tags.title == Some(meta.title) && meta.title.len() == 0 ==> id.len() == 0
            &&& match tags.artist {
                Some(artist) => artist == meta.artist && artist.len() > 0,
                None => meta.artist.len() == 0,
            }
            &&& match tags.album {
                Some(album) => album == meta.album && album.len() > 0,
                None => meta.album.len() == 0,
            }
            &&& tags.date is None
            &&& tags.track is None
            &&& tags.disc is None
        }),
{
}

/// There is nothing to embed exactly where neither title nor artist nor cover is
/// known.
pub proof fn law_nothing_to_embed(tags: MetadataView, has_artwork: bool)
    ensures
        !has_tags(tags, has_artwork) <==> tags.title is None && tags.artist is None && !has_artwork,
{
}

/// A recording is called by the safe form of the track's name and, after a full
/// stop, by the extension of its format.
pub proof fn law_recording_has_its_extension(name: Seq<char>)
    ensures
        output_file(name, Format::Mp3) == metadata::file_name(name) + ".mp3"@,
        output_file(name, Format::Flac) == metadata::file_name(name) + ".flac"@,
        output_file(name, Format::Wav) == metadata::file_name(name) + ".wav"@,
{
    reveal_strlit(".");
    reveal_strlit("mp3");
    reveal_strlit("flac");
    reveal_strlit("wav");
    reveal_strlit(".mp3");
    reveal_strlit(".flac");
    reveal_strlit(".wav");
    let base = metadata::file_name(name);
    assert(base + "."@ + "mp3"@ =~= base + ".mp3"@);
    assert(base + "."@ + "flac"@ =~= base + ".flac"@);
    assert(base + "."@ + "wav"@ =~= base + ".wav"@);
}

/// A length is told in minutes and two digits of seconds, of which there are fewer
/// than sixty, and together they are the whole seconds of the length.
pub proof fn law_clock_tells_the_length(duration_ms: nat)
    ensures
        ({
            let told = clock(duration_ms);
            let n = told.len() as int;
            let minutes = told.take(n - 3);
            let seconds = (told[n - 2] as int - '0' as int) * 10 + (told[n - 1] as int - '0' as int);
            &&& n >= 4
            &&& told[n - 3] == ':'
            &&& '0' <= told[n - 2] <= '5'
            &&& '0' <= told[n - 1] <= '9'
            &&& minutes == text::decimal(text::value(minutes))
            &&& text::value(minutes) * 60 + seconds == duration_ms / 1000
        }),
{
    reveal_strlit(":");
    reveal_strlit(":0");
    let total = duration_ms / 1000;
    let front = text::decimal(total / 60);
    let last = text::decimal(total % 60);
    let told = clock(duration_ms);
    let n = told.len() as int;
    text::lemma_decimal_plain(total / 60, ':');
    text::lemma_decimal_digits(total / 60);
    let s = total % 60;
    if s < 10 {
        assert(last =~= seq![text::digit(s)]);
    } else {
        assert(text::decimal(s / 10) =~= seq![text::digit(s / 10)]);
        assert(last =~= seq![text::digit(s / 10), text::digit(s % 10)]);
    }
    assert(told.take(n - 3) =~= front);
    assert(total == (total / 60) * 60 + total % 60);
}

/// The user is told what is recorded and how: the nodes by their numbers, the track
/// by its name, the bitrate and the format before the recording starts, and the
/// length of the track once it plays.
pub proof fn law_user_is_told(session: Session, format: Format, bitrate: Bitrate)
    ensures
        ({
            let told = announced(session, format, bitrate);
            let sink = text::decimal(session.sink as nat);
            let stream = text::decimal(session.stream as nat);
            let title = if format == Format::Flac {
                "FLAC"@
            } else if format == Format::Wav {
                "WAV"@
            } else {
                "MP3"@
            };
            &&& session.step == Step::FindStream ==> told.contains(
                "Null sink created (node "@ + sink + ")"@,
            )
            &&& session.step == Step::Redirect ==> told.contains(
                "Found Spotify stream (node "@ + stream + ")"@,
            )
            &&& session.step == Step::CreateFolder ==> told.contains(
                "Redirected Spotify (node "@ + stream + ") → null sink (node "@ + sink + ")"@,
            )
            &&& session.step == Step::OpenTrack ==> told.contains(
                "Preparing "@ + session.name@ + " in Spotify…"@,
            )
            &&& session.step == Step::StartCapture ==> told.contains(
                "Starting "@ + output::bitrate_label(bitrate) + " "@ + title + " capture…"@,
            )
            &&& session.step == Step::Play ==> told.contains("Recording "@ + session.name@ + "…"@)
            &&& session.step == Step::Record ==> told.contains(
                "Recording "@ + session.name@ + " ("@ + clock(session.duration_ms as nat) + ")…"@,
            )
        }),
{
    let told = announced(session, format, bitrate);
    if told.len() > 0 {
        assert(told.contains(told[0]));
    }
}

/// What the Web API knows of a track counts as an answer exactly if there is a
/// title, and is taken as it is.
pub proof fn law_what_counts_as_an_answer(web: Option<TrackInfo>)
    ensures
        web_answer(web) is Some <==> web is Some && web->0.tags.title is Some,
        web_answer(web) is Some ==> web_answer(web) == web,
{
}

/// Only four steps wait: for Spotify's audio, for the track, for its beginning and
/// for the end to be recorded.
pub proof fn law_how_long_steps_wait(step: Step)
    ensures
        pause_of(step) == if step == Step::AwaitStream {
            150u64
        } else if step == Step::AwaitTrack {
            400
        } else if step == Step::AwaitStart {
            100
        } else if step == Step::AwaitSilence {
            500
        } else {
            0
        },
{
}

/// Whatever fails, the user is told why: the words of an error end with the cause
/// that came of the step, and where a file is in the way, with its name.
pub proof fn law_words_end_with_the_cause(cause: String, output: Seq<char>)
    ensures
        cause@.is_suffix_of(SessionError::Sink(cause).words(output)),
        cause@.is_suffix_of(SessionError::NoStream(cause).words(output)),
        cause@.is_suffix_of(SessionError::Folder(cause).words(output)),
        cause@.is_suffix_of(SessionError::Capture(cause).words(output)),
        cause@.is_suffix_of(SessionError::NotPlaying(cause).words(output)),
        cause@.is_suffix_of(SessionError::Stop(cause).words(output)),
        cause@.is_suffix_of(SessionError::Missing(cause).words(output)),
        SessionError::Step(cause).words(output) == cause@,
        output.is_suffix_of(SessionError::OutputExists.words(output)),
{
    lemma_ends_with(
        "Failed to create PipeWire null sink for silent capture: "@,
        cause@,
    );
    lemma_ends_with(
        "Could not find Spotify's audio in PipeWire. Make sure Spotify Desktop is running: "@,
        cause@,
    );
    lemma_ends_with("Could not create output folder: "@, cause@);
    lemma_ends_with("Failed to start audio capture: "@, cause@);
    lemma_ends_with("Spotify did not start playing the track in time: "@, cause@);
    lemma_ends_with("Failed to stop capture process: "@, cause@);
    lemma_ends_with("Capture output file was not created: "@, cause@);
    lemma_ends_with("Output file already exists: "@, output);
}

proof fn lemma_ends_with(front: Seq<char>, end: Seq<char>)
    ensures
        end.is_suffix_of(front + end),
{
    let whole = front + end;
    assert(whole.subrange(whole.len() - end.len(), whole.len() as int) =~= end);
}

/// What FFmpeg complained of is told without the white space around it.
pub proof fn law_warning_tells_the_complaint(stderr: Seq<u8>)
    ensures
        text::trim_white(codec::utf8_lossy(stderr)).is_suffix_of(embed_warning(stderr)),
{
    lemma_ends_with(
        "Metadata embedding warning: "@,
        text::trim_white(codec::utf8_lossy(stderr)),
    );
}

} // verus!
