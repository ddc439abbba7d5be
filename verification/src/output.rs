//! Streaming, clock-free PCM encoding: formats, the FFmpeg command line and the
//! rules by which an encoded file is published.
//!
//! The caller supplies interleaved stereo PCM. FFmpeg consumes it as quickly as
//! the caller and the encoder allow; no playback clock is introduced.
use crate::codec;
use crate::text;
use std::path::PathBuf;
use vstd::prelude::*;

verus! {

pub const SAMPLE_RATE: u32 = 44_100;

pub const CHANNELS: usize = 2;

/// How much of FFmpeg's diagnostics is kept.
pub const STDERR_LIMIT: usize = 32768;

/// How many samples are converted and written at a time.
pub const CONVERSION_SAMPLES: usize = 16384;

/// How often a name for a partial file is tried.
pub const RESERVE_ATTEMPTS: u32 = 128;

/// A path of the file system, carried through unread.
#[verifier::external_type_specification]
#[verifier::external_body]
pub struct ExPathBuf(std::path::PathBuf);

/// The path that `PathBuf::from` makes of a text.
pub uninterp spec fn path_of(text: Seq<char>) -> PathBuf;

/// Calls `PathBuf::from` on a string. The path depends on the string alone.
#[verifier::external_body]
fn path_from(text: &str) -> (r: PathBuf)
    ensures
        r == path_of(text@),
{
    PathBuf::from(text)
}

#[derive(Clone, Copy, Debug, Eq, PartialEq, Structural)]
pub enum Format {
    Flac,
    Wav,
    Mp3,
}

#[derive(Clone, Copy, Debug, Eq, PartialEq, Structural)]
pub enum Bitrate {
    Kbps128,
    Kbps192,
    Kbps256,
    Kbps320,
}

impl Default for Format {
    fn default() -> (r: Self)
        ensures
            r == Format::Mp3,
    {
        Format::Mp3
    }
}

impl Default for Bitrate {
    fn default() -> (r: Self)
        ensures
            r == Bitrate::Kbps320,
    {
        Bitrate::Kbps320
    }
}

/// A word that names no format or no bitrate.
#[derive(Clone, Debug)]
pub enum Unsupported {
    Bitrate(String),
    Format(String),
}

// ---------------------------------------------------------------------------
// Bitrates
// ---------------------------------------------------------------------------

/// The number of a bitrate in kilobits per second.
pub open spec fn kilobits(b: Bitrate) -> u32 {
    match b {
        Bitrate::Kbps128 => 128,
        Bitrate::Kbps192 => 192,
        Bitrate::Kbps256 => 256,
        Bitrate::Kbps320 => 320,
    }
}

/// The label of a bitrate on FFmpeg's command line.
pub open spec fn bitrate_label(b: Bitrate) -> Seq<char> {
    match b {
        Bitrate::Kbps128 => "128k"@,
        Bitrate::Kbps192 => "192k"@,
        Bitrate::Kbps256 => "256k"@,
        Bitrate::Kbps320 => "320k"@,
    }
}

/// The bitrate that a word names: its number, with `k` or `kbps` behind it or
/// not. Letters `k` at the end are dropped first, then each `kbps`.
pub open spec fn bitrate_named(word: Seq<char>) -> Option<Bitrate> {
    let digits = text::trim_suffixes(
        text::trim_end(text::Charset::One('k'), word),
        "kbps"@,
    );
    if digits == "128"@ {
        Some(Bitrate::Kbps128)
    } else if digits == "192"@ {
        Some(Bitrate::Kbps192)
    } else if digits == "256"@ {
        Some(Bitrate::Kbps256)
    } else if digits == "320"@ {
        Some(Bitrate::Kbps320)
    } else {
        None
    }
}

impl Bitrate {
    /// The bitrate in kilobits per second.
    pub fn kbps(self) -> (r: u32)
        ensures
            r == kilobits(self),
    {
        match self {
            Bitrate::Kbps128 => 128,
            Bitrate::Kbps192 => 192,
            Bitrate::Kbps256 => 256,
            Bitrate::Kbps320 => 320,
        }
    }

    /// The bitrate as FFmpeg takes it.
    pub fn label(self) -> (r: &'static str)
        ensures
            r@ == bitrate_label(self),
    {
        match self {
            Bitrate::Kbps128 => "128k",
            Bitrate::Kbps192 => "192k",
            Bitrate::Kbps256 => "256k",
            Bitrate::Kbps320 => "320k",
        }
    }

    /// Reads a bitrate.
    pub fn parse(word: &str) -> (r: Result<Bitrate, Unsupported>)
        ensures
            match r {
                Ok(b) => bitrate_named(word@) == Some(b),
                Err(Unsupported::Bitrate(w)) => bitrate_named(word@) is None && w@ == word@,
                Err(_) => false,
            },
    {
        let cs = text::chars_of(word);
        proof {
            reveal_strlit("kbps");
        }
        let digits = text::without_suffixes(
            text::without_end(text::Charset::One('k'), cs.as_slice()),
            "kbps",
        );
        let digits = text::string_of(digits);
        if text::same(digits.as_str(), "128") {
            Ok(Bitrate::Kbps128)
        } else if text::same(digits.as_str(), "192") {
            Ok(Bitrate::Kbps192)
        } else if text::same(digits.as_str(), "256") {
            Ok(Bitrate::Kbps256)
        } else if text::same(digits.as_str(), "320") {
            Ok(Bitrate::Kbps320)
        } else {
            Err(Unsupported::Bitrate(word.to_owned()))
        }
    }
}

impl std::str::FromStr for Bitrate {
    type Err = Unsupported;

    fn from_str(word: &str) -> (r: Result<Bitrate, Unsupported>)
        ensures
            match r {
                Ok(b) => bitrate_named(word@) == Some(b),
                Err(Unsupported::Bitrate(w)) => bitrate_named(word@) is None && w@ == word@,
                Err(_) => false,
            },
    {
        Bitrate::parse(word)
    }
}

// ---------------------------------------------------------------------------
// Formats
// ---------------------------------------------------------------------------

/// The file name extension of a format, which is FFmpeg's name for it too.
pub open spec fn extension_of(f: Format) -> Seq<char> {
    match f {
        Format::Flac => "flac"@,
        Format::Wav => "wav"@,
        Format::Mp3 => "mp3"@,
    }
}

/// The format that a word names, in capitals or not.
pub open spec fn format_named(word: Seq<char>) -> Option<Format> {
    let small = text::lowered(word);
    if small == "flac"@ {
        Some(Format::Flac)
    } else if small == "wav"@ {
        Some(Format::Wav)
    } else if small == "mp3"@ {
        Some(Format::Mp3)
    } else {
        None
    }
}

impl Format {
    /// The file name extension.
    pub fn extension(self) -> (r: &'static str)
        ensures
            r@ == extension_of(self),
    {
        match self {
            Format::Flac => "flac",
            Format::Wav => "wav",
            Format::Mp3 => "mp3",
        }
    }

    /// Whether a cover can be embedded.
    pub fn supports_artwork(self) -> (r: bool)
        ensures
            r == (self != Format::Wav),
    {
        self != Format::Wav
    }

    /// Reads a format.
    pub fn parse(word: &str) -> (r: Result<Format, Unsupported>)
        ensures
            match r {
                Ok(f) => format_named(word@) == Some(f),
                Err(Unsupported::Format(w)) => format_named(word@) is None && w@ == word@,
                Err(_) => false,
            },
    {
        let cs = text::chars_of(word);
        let small = text::lower_case(cs.as_slice());
        let small = text::string_of(small.as_slice());
        if text::same(small.as_str(), "flac") {
            Ok(Format::Flac)
        } else if text::same(small.as_str(), "wav") {
            Ok(Format::Wav)
        } else if text::same(small.as_str(), "mp3") {
            Ok(Format::Mp3)
        } else {
            Err(Unsupported::Format(word.to_owned()))
        }
    }
}

impl std::str::FromStr for Format {
    type Err = Unsupported;

    fn from_str(word: &str) -> (r: Result<Format, Unsupported>)
        ensures
            match r {
                Ok(f) => format_named(word@) == Some(f),
                Err(Unsupported::Format(w)) => format_named(word@) is None && w@ == word@,
                Err(_) => false,
            },
    {
        Format::parse(word)
    }
}

/// The extension of a format reads back as the format.
pub proof fn law_extension_reads_back(f: Format)
    ensures
        format_named(extension_of(f)) == Some(f),
{
    reveal_strlit("flac");
    reveal_strlit("wav");
    reveal_strlit("mp3");
    let e = extension_of(f);
    assert(text::lowered(e) =~= e);
    assert("flac"@.len() == 4);
    assert("wav"@[0] != "mp3"@[0]);
}

/// The label of a bitrate reads back as the bitrate, and so does its number.
pub proof fn law_bitrate_reads_back(b: Bitrate)
    ensures
        bitrate_named(bitrate_label(b)) == Some(b),
        bitrate_named(text::decimal(kilobits(b) as nat)) == Some(b),
{
    reveal_strlit("128k");
    reveal_strlit("192k");
    reveal_strlit("256k");
    reveal_strlit("320k");
    reveal_strlit("128");
    reveal_strlit("192");
    reveal_strlit("256");
    reveal_strlit("320");
    reveal_strlit("kbps");
    reveal_with_fuel(text::decimal, 3);
    let digits = text::decimal(kilobits(b) as nat);
    let k = text::Charset::One('k');
    assert(bitrate_label(b).drop_last() =~= digits);
    assert(text::trim_end(k, digits) == digits);
    assert(text::trim_end(k, bitrate_label(b)) == digits);
    assert(text::trim_suffixes(digits, "kbps"@) == digits);
    match b {
        Bitrate::Kbps128 => {
            assert(digits =~= "128"@);
        },
        Bitrate::Kbps192 => {
            assert(digits =~= "192"@);
            assert("192"@[1] != "128"@[1]);
        },
        Bitrate::Kbps256 => {
            assert(digits =~= "256"@);
            assert("256"@[0] != "128"@[0] && "256"@[0] != "192"@[0]);
        },
        Bitrate::Kbps320 => {
            assert(digits =~= "320"@);
            assert("320"@[0] != "128"@[0] && "320"@[0] != "192"@[0] && "320"@[0] != "256"@[0]);
        },
    }
}

// ---------------------------------------------------------------------------
// Tags
// ---------------------------------------------------------------------------

/// The tags of a recording.
#[derive(Clone, Debug)]
pub struct Metadata {
    pub title: Option<String>,
    pub artist: Option<String>,
    pub album: Option<String>,
    pub date: Option<String>,
    pub track: Option<String>,
    pub disc: Option<String>,
}

/// What tags say.
pub struct MetadataView {
    pub title: Option<Seq<char>>,
    pub artist: Option<Seq<char>>,
    pub album: Option<Seq<char>>,
    pub date: Option<Seq<char>>,
    pub track: Option<Seq<char>>,
    pub disc: Option<Seq<char>>,
}

impl View for Metadata {
    type V = MetadataView;

    open spec fn view(&self) -> MetadataView {
        MetadataView {
            title: text::option_view(self.title),
            artist: text::option_view(self.artist),
            album: text::option_view(self.album),
            date: text::option_view(self.date),
            track: text::option_view(self.track),
            disc: text::option_view(self.disc),
        }
    }
}

/// No tags at all.
pub open spec fn no_tags() -> MetadataView {
    MetadataView { title: None, artist: None, album: None, date: None, track: None, disc: None }
}

impl Default for Metadata {
    /// No tags at all.
    fn default() -> (r: Self)
        ensures
            r@ == no_tags(),
    {
        Metadata { title: None, artist: None, album: None, date: None, track: None, disc: None }
    }
}

// ---------------------------------------------------------------------------
// Arguments of FFmpeg
// ---------------------------------------------------------------------------

/// One argument on a command line.
pub enum Arg<'a> {
    Text(String),
    Path(&'a PathBuf),
}

/// What an argument is.
pub enum ArgView {
    Text(Seq<char>),
    Path(PathBuf),
}

impl<'a> View for Arg<'a> {
    type V = ArgView;

    open spec fn view(&self) -> ArgView {
        match self {
            Arg::Text(s) => ArgView::Text(s@),
            Arg::Path(p) => ArgView::Path(**p),
        }
    }
}

/// What the arguments of a list are.
pub open spec fn args_view(args: Seq<Arg>) -> Seq<ArgView> {
    args.map_values(|a: Arg| a@)
}

/// Arguments that are all words.
pub open spec fn words(items: Seq<Seq<char>>) -> Seq<ArgView> {
    items.map_values(|t: Seq<char>| ArgView::Text(t))
}

/// The one argument that is a path.
pub open spec fn path(p: PathBuf) -> Seq<ArgView> {
    seq![ArgView::Path(p)]
}

/// Appends arguments that are words.
pub fn push_words(args: &mut Vec<Arg>, items: &[&str])
    ensures
        args_view(final(args)@) == args_view(old(args)@) + words(text::slices(items@)),
{
    let ghost start = args@;
    assert(args_view(start) =~= args_view(start) + words(text::slices(items@.take(0))));
    for i in 0..items.len()
        invariant
            args_view(args@) == args_view(start) + words(text::slices(items@.take(i as int))),
    {
        let ghost before = args@;
        let word = Arg::Text(items[i].to_owned());
        args.push(word);
        assert(args_view(args@) =~= args_view(before).push(word@));
        assert(words(text::slices(items@.take(i as int + 1))) =~= words(
            text::slices(items@.take(i as int)),
        ).push(word@));
        assert(args_view(args@) =~= args_view(start) + words(
            text::slices(items@.take(i as int + 1)),
        ));
    }
    assert(items@.take(items@.len() as int) =~= items@);
}

/// Appends an argument that is a path.
pub fn push_path<'a>(args: &mut Vec<Arg<'a>>, p: &'a PathBuf)
    ensures
        args_view(final(args)@) == args_view(old(args)@) + path(*p),
{
    let ghost before = args@;
    let arg = Arg::Path(p);
    args.push(arg);
    assert(args_view(args@) =~= args_view(before) + path(*p));
}

/// The arguments for one tag: none where it is not set.
pub open spec fn tag_args(key: Seq<char>, value: Option<Seq<char>>) -> Seq<ArgView> {
    match value {
        Some(value) => words(seq!["-metadata"@, key + "="@ + value]),
        None => Seq::empty(),
    }
}

/// The arguments for all tags.
pub open spec fn metadata_args(tags: MetadataView) -> Seq<ArgView> {
    tag_args("title"@, tags.title) + tag_args("artist"@, tags.artist) + tag_args(
        "album"@,
        tags.album,
    ) + tag_args("date"@, tags.date) + tag_args("track"@, tags.track) + tag_args("disc"@, tags.disc)
}

/// The arguments that embed the second input as the front cover.
pub open spec fn cover_args() -> Seq<ArgView> {
    words(
        seq![
            "-map"@,
            "1:v:0"@,
            "-c:v"@,
            "copy"@,
            "-disposition:v:0"@,
            "attached_pic"@,
            "-metadata:s:v:0"@,
            "title=Album cover"@,
            "-metadata:s:v:0"@,
            "comment=Cover (front)"@,
        ],
    )
}

/// The arguments that choose the audio codec.
pub open spec fn codec_args(format: Format, label: Seq<char>) -> Seq<ArgView> {
    match format {
        Format::Flac => words(
            seq![
                "-c:a"@,
                "flac"@,
                "-compression_level"@,
                "5"@,
                "-sample_fmt"@,
                "s32"@,
                "-bits_per_raw_sample"@,
                "24"@,
            ],
        ),
        Format::Wav => words(seq!["-c:a"@, "pcm_s24le"@]),
        Format::Mp3 => words(
            seq!["-c:a"@, "libmp3lame"@, "-b:a"@, label, "-id3v2_version"@, "3"@],
        ),
    }
}

fn push_tag(args: &mut Vec<Arg>, key: &str, value: &Option<String>)
    ensures
        args_view(final(args)@) == args_view(old(args)@) + tag_args(
            key@,
            text::option_view(*value),
        ),
{
    match value {
        Some(value) => {
            let tag = key.to_owned().concat("=").concat(value.as_str());
            let items = ["-metadata", tag.as_str()];
            push_words(args, &items);
            assert(text::slices(items@) =~= seq!["-metadata"@, key@ + "="@ + value@]);
        },
        None => {
            assert(args_view(args@) =~= args_view(args@) + Seq::empty());
        },
    }
}

/// Appends the arguments for all tags.
pub fn push_metadata(args: &mut Vec<Arg>, tags: &Metadata)
    ensures
        args_view(final(args)@) == args_view(old(args)@) + metadata_args(tags@),
{
    let ghost start = args_view(args@);
    push_tag(args, "title", &tags.title);
    push_tag(args, "artist", &tags.artist);
    push_tag(args, "album", &tags.album);
    push_tag(args, "date", &tags.date);
    push_tag(args, "track", &tags.track);
    push_tag(args, "disc", &tags.disc);
    assert(args_view(args@) =~= start + metadata_args(tags@));
}

/// Appends the arguments that embed the second input as the front cover.
pub fn push_cover(args: &mut Vec<Arg>)
    ensures
        args_view(final(args)@) == args_view(old(args)@) + cover_args(),
{
    let items = [
        "-map",
        "1:v:0",
        "-c:v",
        "copy",
        "-disposition:v:0",
        "attached_pic",
        "-metadata:s:v:0",
        "title=Album cover",
        "-metadata:s:v:0",
        "comment=Cover (front)",
    ];
    push_words(args, &items);
    assert(words(text::slices(items@)) =~= cover_args());
}

/// Appends the arguments that choose the audio codec.
pub fn push_codec(args: &mut Vec<Arg>, format: Format, label: &str)
    ensures
        args_view(final(args)@) == args_view(old(args)@) + codec_args(format, label@),
{
    match format {
        Format::Flac => {
            let items = [
                "-c:a",
                "flac",
                "-compression_level",
                "5",
                "-sample_fmt",
                "s32",
                "-bits_per_raw_sample",
                "24",
            ];
            push_words(args, &items);
            assert(words(text::slices(items@)) =~= codec_args(format, label@));
        },
        Format::Wav => {
            let items = ["-c:a", "pcm_s24le"];
            push_words(args, &items);
            assert(words(text::slices(items@)) =~= codec_args(format, label@));
        },
        Format::Mp3 => {
            let items = ["-c:a", "libmp3lame", "-b:a", label, "-id3v2_version", "3"];
            push_words(args, &items);
            assert(words(text::slices(items@)) =~= codec_args(format, label@));
        },
    }
}

// ---------------------------------------------------------------------------
// The encoder
// ---------------------------------------------------------------------------

/// What is to be encoded, and where to.
#[derive(Debug)]
pub struct EncoderConfig {
    /// The final filename. Existing files are never overwritten.
    pub output: PathBuf,
    pub format: Format,
    pub bitrate: Bitrate,
    pub metadata: Metadata,
    /// Optional local JPEG or PNG. Supported for FLAC and MP3, not WAV.
    pub artwork: Option<PathBuf>,
    pub ffmpeg: PathBuf,
}

impl EncoderConfig {
    /// A file without tags or artwork, at the best bitrate, encoded by the
    /// FFmpeg on the search path.
    pub fn new(output: PathBuf, format: Format) -> (r: EncoderConfig)
        ensures
            r.output == output,
            r.format == format,
            r.bitrate == Bitrate::Kbps320,
            r.metadata@ == no_tags(),
            r.artwork is None,
            r.ffmpeg == path_of("ffmpeg"@),
    {
        EncoderConfig {
            output,
            format,
            bitrate: Bitrate::default(),
            metadata: Metadata::default(),
            artwork: None,
            ffmpeg: path_from("ffmpeg"),
        }
    }

    /// The same with another bitrate.
    pub fn with_bitrate(self, bitrate: Bitrate) -> (r: EncoderConfig)
        ensures
            r == (EncoderConfig { bitrate, ..self }),
    {
        let mut config = self;
        config.bitrate = bitrate;
        config
    }
}

/// The arguments with which FFmpeg encodes what it is given on its standard
/// input into the file `partial`.
pub open spec fn encoder_args(config: EncoderConfig, partial: PathBuf) -> Seq<ArgView> {
    words(
        seq![
            "-hide_banner"@,
            "-loglevel"@,
            "error"@,
            "-nostats"@,
            "-nostdin"@,
            "-y"@,
            "-f"@,
            "f32le"@,
            "-ar"@,
            "44100"@,
            "-ac"@,
            "2"@,
            "-i"@,
            "pipe:0"@,
        ],
    ) + (match config.artwork {
        Some(artwork) => words(seq!["-i"@]) + path(artwork),
        None => Seq::empty(),
    }) + words(seq!["-map"@, "0:a:0"@, "-map_metadata"@, "-1"@, "-map_chapters"@, "-1"@]) + (
    if config.artwork is Some {
        cover_args()
    } else {
        Seq::empty()
    }) + codec_args(config.format, bitrate_label(config.bitrate)) + metadata_args(config.metadata@)
        + words(seq!["-f"@, extension_of(config.format)]) + path(partial)
}

/// Why a file is not encoded or not published.
#[derive(Clone, Debug)]
pub enum EncoderError {
    /// There is a file of that name.
    OutputExists,
    /// The format takes no cover.
    ArtworkUnsupported,
    /// The cover is no file.
    ArtworkUnreadable,
    /// The output has no name.
    NoName,
    /// This folder was not created, for this reason.
    Folder(String, String),
    /// This partial file was not created, for this reason.
    Partial(String, String),
    /// All names that were tried for a partial file are taken.
    NoPartial,
    /// This FFmpeg did not start, for this reason.
    NotStarted(String, String),
    /// FFmpeg's words cannot be had.
    NoPipe,
    /// The reader of FFmpeg's words did not start.
    NoReader(String),
    /// Nothing is written after a write that failed.
    WriteAfterFailure,
    /// There are more samples than can be counted.
    SampleOverflow,
    /// FFmpeg's input was closed.
    InputClosed,
    /// FFmpeg took no more samples.
    InputRefused,
    /// Nothing is published after a write that failed.
    FinishAfterFailure,
    /// No sample was written.
    NoAudio,
    /// One channel has a sample more than the other.
    IncompleteFrame,
    /// It is not known how FFmpeg ended.
    Unwaited(String),
    /// The reader of FFmpeg's words panicked.
    ReaderPanicked,
    /// FFmpeg's words could not be read.
    Unread(String),
    /// FFmpeg ended with this status, and this was the last it said.
    Ffmpeg(String, Vec<u8>),
    /// FFmpeg left no file.
    NoFile(String),
    /// It is not known how large the file is that FFmpeg left.
    Unmeasured(String),
    /// FFmpeg left an empty file.
    EmptyFile,
    /// The file was not synced.
    Unsynced(String),
    /// The file was not given the name of the output.
    Unpublished(String),
}

/// The words of an error about the file `output` and the cover `artwork`.
pub open spec fn error_words(
    e: EncoderError,
    output: Seq<char>,
    artwork: Seq<char>,
) -> Seq<char> {
    match e {
        EncoderError::OutputExists => "output already exists: "@ + output,
        EncoderError::ArtworkUnsupported =>
            "WAV does not support embedded cover art; use FLAC/MP3 or omit artwork"@,
        EncoderError::ArtworkUnreadable => "artwork is not a readable file: "@ + artwork,
        EncoderError::NoName => "output must include a filename"@,
        EncoderError::Folder(folder, cause) => "cannot create output directory "@ + folder@ + ": "@
            + cause@,
        EncoderError::Partial(file, cause) => "cannot create partial file "@ + file@ + ": "@
            + cause@,
        EncoderError::NoPartial => "could not reserve a unique partial output file"@,
        EncoderError::NotStarted(ffmpeg, cause) => "cannot start "@ + ffmpeg@
            + "; install FFmpeg or set its executable path: "@ + cause@,
        EncoderError::NoPipe => "FFmpeg stderr pipe missing"@,
        EncoderError::NoReader(cause) => "cannot start FFmpeg stderr reader: "@ + cause@,
        EncoderError::WriteAfterFailure =>
            "encoder cannot continue after an earlier write failure"@,
        EncoderError::SampleOverflow => "PCM sample count overflow"@,
        EncoderError::InputClosed => "FFmpeg input is closed"@,
        EncoderError::InputRefused => "FFmpeg stopped accepting PCM audio"@,
        EncoderError::FinishAfterFailure => "cannot finish after an encoder write failure"@,
        EncoderError::NoAudio => "no PCM audio was captured; no output was saved"@,
        EncoderError::IncompleteFrame => "incomplete stereo PCM frame; no output was saved"@,
        EncoderError::Unwaited(cause) => "cannot wait for FFmpeg: "@ + cause@,
        EncoderError::ReaderPanicked => "FFmpeg stderr reader panicked"@,
        EncoderError::Unread(cause) => "cannot read FFmpeg diagnostics: "@ + cause@,
        EncoderError::Ffmpeg(status, last) => "FFmpeg failed ("@ + status@ + "): "@
            + text::trim_white(codec::utf8_lossy(last@)),
        EncoderError::NoFile(cause) => "FFmpeg did not produce its temporary output: "@ + cause@,
        EncoderError::Unmeasured(cause) => cause@,
        EncoderError::EmptyFile => "FFmpeg produced an empty file; no output was saved"@,
        EncoderError::Unsynced(cause) => "cannot sync encoded audio: "@ + cause@,
        EncoderError::Unpublished(cause) => "cannot publish "@ + output
            + " without overwriting an existing file; the output filesystem must support hard links: "@
            + cause@,
    }
}

impl EncoderError {
    /// The error in words, with the names of the output and the cover.
    pub fn message(&self, output: &str, artwork: &str) -> (r: String)
        ensures
            r@ == error_words(*self, output@, artwork@),
    {
        match self {
            EncoderError::OutputExists => "output already exists: ".to_owned().concat(output),
            EncoderError::ArtworkUnsupported =>
                "WAV does not support embedded cover art; use FLAC/MP3 or omit artwork".to_owned(),
            EncoderError::ArtworkUnreadable => "artwork is not a readable file: ".to_owned().concat(
                artwork,
            ),
            EncoderError::NoName => "output must include a filename".to_owned(),
            EncoderError::Folder(folder, cause) =>
                "cannot create output directory ".to_owned().concat(folder.as_str()).concat(
                ": ",
            ).concat(cause.as_str()),
            EncoderError::Partial(file, cause) => "cannot create partial file ".to_owned().concat(
                file.as_str(),
            ).concat(": ").concat(cause.as_str()),
            EncoderError::NoPartial =>
                "could not reserve a unique partial output file".to_owned(),
            EncoderError::NotStarted(ffmpeg, cause) => "cannot start ".to_owned().concat(
                ffmpeg.as_str(),
            ).concat("; install FFmpeg or set its executable path: ").concat(cause.as_str()),
            EncoderError::NoPipe => "FFmpeg stderr pipe missing".to_owned(),
            EncoderError::NoReader(cause) => "cannot start FFmpeg stderr reader: ".to_owned().concat(
                cause.as_str(),
            ),
            EncoderError::WriteAfterFailure =>
                "encoder cannot continue after an earlier write failure".to_owned(),
            EncoderError::SampleOverflow => "PCM sample count overflow".to_owned(),
            EncoderError::InputClosed => "FFmpeg input is closed".to_owned(),
            EncoderError::InputRefused => "FFmpeg stopped accepting PCM audio".to_owned(),
            EncoderError::FinishAfterFailure =>
                "cannot finish after an encoder write failure".to_owned(),
            EncoderError::NoAudio => "no PCM audio was captured; no output was saved".to_owned(),
            EncoderError::IncompleteFrame =>
                "incomplete stereo PCM frame; no output was saved".to_owned(),
            EncoderError::Unwaited(cause) => "cannot wait for FFmpeg: ".to_owned().concat(
                cause.as_str(),
            ),
            EncoderError::ReaderPanicked => "FFmpeg stderr reader panicked".to_owned(),
            EncoderError::Unread(cause) => "cannot read FFmpeg diagnostics: ".to_owned().concat(
                cause.as_str(),
            ),
            EncoderError::Ffmpeg(status, last) => {
                let said = codec::read_lossy(last.as_slice());
                let said = text::chars_of(said.as_str());
                let said = text::string_of(text::trim(text::Charset::White, said.as_slice()));
                "FFmpeg failed (".to_owned().concat(status.as_str()).concat("): ").concat(
                    said.as_str(),
                )
            },
            EncoderError::NoFile(cause) =>
                "FFmpeg did not produce its temporary output: ".to_owned().concat(cause.as_str()),
            EncoderError::Unmeasured(cause) => cause.clone(),
            EncoderError::EmptyFile =>
                "FFmpeg produced an empty file; no output was saved".to_owned(),
            EncoderError::Unsynced(cause) => "cannot sync encoded audio: ".to_owned().concat(
                cause.as_str(),
            ),
            EncoderError::Unpublished(cause) => "cannot publish ".to_owned().concat(output).concat(
                " without overwriting an existing file; the output filesystem must support hard links: ",
            ).concat(cause.as_str()),
        }
    }
}

/// What became of samples that were written to FFmpeg.
#[derive(Clone, Copy, Debug, PartialEq, Eq, Structural)]
pub enum Written {
    /// FFmpeg took them.
    Accepted,
    /// Its input was closed already.
    Closed,
    /// Writing failed.
    Refused,
}

/// The account of one encoding: what is encoded, how many samples FFmpeg took,
/// and whether a write has failed.
pub struct Encoder {
    config: EncoderConfig,
    samples_written: u64,
    failed: bool,
}

/// The number of samples that FFmpeg took and whether a write has failed.
pub struct EncoderView {
    pub samples: nat,
    pub failed: bool,
}

impl View for Encoder {
    type V = EncoderView;

    closed spec fn view(&self) -> EncoderView {
        EncoderView { samples: self.samples_written as nat, failed: self.failed }
    }
}

/// Why an encoding cannot begin, if so.
pub open spec fn start_refused(
    config: EncoderConfig,
    output_exists: bool,
    artwork_is_file: bool,
) -> Option<EncoderError> {
    if output_exists {
        Some(EncoderError::OutputExists)
    } else if config.artwork is Some && config.format == Format::Wav {
        Some(EncoderError::ArtworkUnsupported)
    } else if config.artwork is Some && !artwork_is_file {
        Some(EncoderError::ArtworkUnreadable)
    } else {
        None
    }
}

impl EncoderView {
    /// Why `count` more samples cannot be written, if so.
    pub open spec fn write_refused(self, count: nat) -> Option<EncoderError> {
        if self.failed {
            Some(EncoderError::WriteAfterFailure)
        } else if self.samples + count > u64::MAX {
            Some(EncoderError::SampleOverflow)
        } else {
            None
        }
    }

    /// What comes of writing `count` samples that met with `outcome`.
    pub open spec fn written(self, count: nat, outcome: Written) -> (
        Result<(), EncoderError>,
        EncoderView,
    ) {
        match self.write_refused(count) {
            Some(e) => (Err(e), self),
            None => match outcome {
                Written::Accepted => (
                    Ok(()),
                    EncoderView { samples: self.samples + count, ..self },
                ),
                Written::Closed => (Err(EncoderError::InputClosed), self),
                Written::Refused => (
                    Err(EncoderError::InputRefused),
                    EncoderView { failed: true, ..self },
                ),
            },
        }
    }

    /// Why the recording cannot be finished, if so.
    pub open spec fn finish_refused(self) -> Option<EncoderError> {
        if self.failed {
            Some(EncoderError::FinishAfterFailure)
        } else if self.samples == 0 {
            Some(EncoderError::NoAudio)
        } else if self.samples % (CHANNELS as nat) != 0 {
            Some(EncoderError::IncompleteFrame)
        } else {
            None
        }
    }
}

impl Encoder {
    /// What is encoded.
    pub closed spec fn settings(self) -> EncoderConfig {
        self.config
    }

    /// Begins an encoding, given whether the output exists already and whether
    /// the artwork is a file.
    pub fn new(config: EncoderConfig, output_exists: bool, artwork_is_file: bool) -> (r: Result<
        Encoder,
        EncoderError,
    >)
        ensures
            match r {
                Ok(encoder) => {
                    &&& start_refused(config, output_exists, artwork_is_file) is None
                    &&& encoder.settings() == config
                    &&& encoder@ == EncoderView { samples: 0, failed: false }
                },
                Err(e) => start_refused(config, output_exists, artwork_is_file) == Some(e),
            },
    {
        if output_exists {
            return Err(EncoderError::OutputExists);
        }
        if config.artwork.is_some() {
            if !config.format.supports_artwork() {
                return Err(EncoderError::ArtworkUnsupported);
            }
            if !artwork_is_file {
                return Err(EncoderError::ArtworkUnreadable);
            }
        }
        Ok(Encoder { config, samples_written: 0, failed: false })
    }

    /// Begins to start the encoding: the partial file and FFmpeg are to be had.
    pub fn start(&self) -> (r: Start)
        ensures
            r == (Start { step: StartStep::FindName, attempts: 0, error: None }),
    {
        Start { step: StartStep::FindName, attempts: 0, error: None }
    }

    /// What is encoded.
    pub fn config(&self) -> (r: &EncoderConfig)
        ensures
            *r == self.settings(),
    {
        &self.config
    }

    /// The arguments of the FFmpeg that encodes into the file `partial`.
    pub fn arguments<'a>(&'a self, partial: &'a PathBuf) -> (r: Vec<Arg<'a>>)
        ensures
            args_view(r@) == encoder_args(self.settings(), *partial),
    {
        let config = &self.config;
        let mut args: Vec<Arg<'a>> = Vec::new();
        let input = [
            "-hide_banner",
            "-loglevel",
            "error",
            "-nostats",
            "-nostdin",
            // Only the private partial file, reserved before, is overwritten.
            "-y",
            "-f",
            "f32le",
            "-ar",
            "44100",
            "-ac",
            "2",
            "-i",
            "pipe:0",
        ];
        push_words(&mut args, &input);
        if let Some(artwork) = &config.artwork {
            let second = ["-i"];
            push_words(&mut args, &second);
            push_path(&mut args, artwork);
            assert(text::slices(second@) =~= seq!["-i"@]);
        }
        let map = ["-map", "0:a:0", "-map_metadata", "-1", "-map_chapters", "-1"];
        push_words(&mut args, &map);
        if config.artwork.is_some() {
            push_cover(&mut args);
        }
        push_codec(&mut args, config.format, config.bitrate.label());
        push_metadata(&mut args, &config.metadata);
        // The muxer is named: the partial file does not end in its extension.
        let muxer = ["-f", config.format.extension()];
        push_words(&mut args, &muxer);
        push_path(&mut args, partial);
        assert(text::slices(muxer@) =~= seq!["-f"@, extension_of(config.format)]);
        assert(text::slices(map@) =~= seq![
            "-map"@,
            "0:a:0"@,
            "-map_metadata"@,
            "-1"@,
            "-map_chapters"@,
            "-1"@,
        ]);
        assert(text::slices(input@) =~= seq![
            "-hide_banner"@,
            "-loglevel"@,
            "error"@,
            "-nostats"@,
            "-nostdin"@,
            "-y"@,
            "-f"@,
            "f32le"@,
            "-ar"@,
            "44100"@,
            "-ac"@,
            "2"@,
            "-i"@,
            "pipe:0"@,
        ]);
        assert(args_view(args@) =~= encoder_args(*config, *partial));
        args
    }

    /// Whether `count` more samples may be written to FFmpeg.
    pub fn check_write(&self, count: u64) -> (r: Result<(), EncoderError>)
        ensures
            match r {
                Ok(_) => self@.write_refused(count as nat) is None,
                Err(e) => self@.write_refused(count as nat) == Some(e),
            },
    {
        if self.failed {
            return Err(EncoderError::WriteAfterFailure);
        }
        match self.samples_written.checked_add(count) {
            Some(_) => Ok(()),
            None => Err(EncoderError::SampleOverflow),
        }
    }

    /// Takes note of `count` interleaved samples that were written to FFmpeg.
    pub fn write_samples(&mut self, count: u64, outcome: Written) -> (r: Result<(), EncoderError>)
        ensures
            (r, final(self)@) == old(self)@.written(count as nat, outcome),
            final(self).settings() == old(self).settings(),
    {
        self.check_write(count)?;
        match outcome {
            Written::Accepted => {
                self.samples_written = self.samples_written + count;
                Ok(())
            },
            Written::Closed => Err(EncoderError::InputClosed),
            Written::Refused => {
                self.failed = true;
                Err(EncoderError::InputRefused)
            },
        }
    }

    /// How many whole frames FFmpeg took.
    pub fn frames_written(&self) -> (r: u64)
        ensures
            r == self@.samples / (CHANNELS as nat),
    {
        self.samples_written / CHANNELS as u64
    }

    /// Begins to finish the recording: samples must have been written, whole
    /// frames of them, and no write may have failed.
    pub fn finish(&self) -> (r: Result<Finish, EncoderError>)
        ensures
            match r {
                Ok(finish) => self@.finish_refused() is None && finish == (Finish {
                    step: FinishStep::Wait,
                    exit: None,
                    error: None,
                }),
                Err(e) => self@.finish_refused() == Some(e),
            },
    {
        if self.failed {
            return Err(EncoderError::FinishAfterFailure);
        }
        if self.samples_written == 0 {
            return Err(EncoderError::NoAudio);
        }
        if self.samples_written % CHANNELS as u64 != 0 {
            return Err(EncoderError::IncompleteFrame);
        }
        Ok(Finish { step: FinishStep::Wait, exit: None, error: None })
    }

    /// Gives the recording up: FFmpeg is ended, and what it wrote is removed.
    pub fn cancel(&self) -> (r: Finish)
        ensures
            r == (Finish { step: FinishStep::Kill, exit: None, error: None }),
    {
        Finish { step: FinishStep::Kill, exit: None, error: None }
    }
}

// ---------------------------------------------------------------------------
// The start of an encoding
// ---------------------------------------------------------------------------

/// What the start of an encoding does next.
#[derive(Clone, Copy, Debug, PartialEq, Eq, Structural)]
pub enum StartStep {
    /// Ask whether the output has a name.
    FindName,
    /// Create the folder of the output.
    CreateFolder,
    /// Create a partial file under a name that nothing has.
    CreatePartial,
    /// Start FFmpeg.
    StartFfmpeg,
    /// Ask whether FFmpeg's words can be had.
    FindPipe,
    /// Start the reader of FFmpeg's words.
    StartReader,
    /// End FFmpeg on the way out.
    Kill,
    /// Remove the partial file on the way out.
    Discard,
    /// Nothing: the encoding runs.
    Running,
    /// Nothing: the encoding did not start.
    Over,
}

/// What came of a step of the start of an encoding.
#[derive(Debug)]
pub enum StartEvent {
    /// It was done.
    Done,
    /// What it was done to, in words, and why it failed.
    Failed(String, String),
    /// It was a question, and this is the answer.
    Answer(bool),
    /// Something has that name already.
    Taken,
}

/// The start of an encoding: what is done next, how many names for the partial file
/// were taken, and why the encoding does not start.
#[derive(Debug)]
pub struct Start {
    pub step: StartStep,
    pub attempts: u32,
    pub error: Option<EncoderError>,
}

/// The event is one that can come of the step.
pub open spec fn start_fits(step: StartStep, event: StartEvent) -> bool {
    match step {
        StartStep::FindName | StartStep::FindPipe => event is Answer,
        StartStep::CreatePartial => event is Done || event is Failed || event is Taken,
        StartStep::Running | StartStep::Over => false,
        _ => event is Done || event is Failed,
    }
}

impl Start {
    /// The start goes on with a step.
    pub open spec fn at(self, step: StartStep) -> Start {
        Start { step, ..self }
    }

    /// The encoding does not start, and the start leaves by a step.
    pub open spec fn failing(self, error: EncoderError, step: StartStep) -> Start {
        Start { step, error: Some(error), ..self }
    }

    /// What follows the step, of which the event came. An event that cannot come of
    /// the step changes nothing.
    pub open spec fn after(self, event: StartEvent) -> Start {
        if !start_fits(self.step, event) {
            self
        } else {
            match (self.step, event) {
                (StartStep::FindName, StartEvent::Answer(named)) => if named {
                    self.at(StartStep::CreateFolder)
                } else {
                    self.failing(EncoderError::NoName, StartStep::Over)
                },
                (StartStep::CreateFolder, StartEvent::Done) => self.at(StartStep::CreatePartial),
                (StartStep::CreateFolder, StartEvent::Failed(folder, cause)) => self.failing(
                    EncoderError::Folder(folder, cause),
                    StartStep::Over,
                ),
                (StartStep::CreatePartial, StartEvent::Done) => self.at(StartStep::StartFfmpeg),
                (StartStep::CreatePartial, StartEvent::Taken) => if self.attempts
                    < RESERVE_ATTEMPTS - 1 {
                    Start { attempts: (self.attempts + 1) as u32, ..self }
                } else {
                    self.failing(EncoderError::NoPartial, StartStep::Over)
                },
                (StartStep::CreatePartial, StartEvent::Failed(file, cause)) => self.failing(
                    EncoderError::Partial(file, cause),
                    StartStep::Over,
                ),
                (StartStep::StartFfmpeg, StartEvent::Done) => self.at(StartStep::FindPipe),
                (StartStep::StartFfmpeg, StartEvent::Failed(ffmpeg, cause)) => self.failing(
                    EncoderError::NotStarted(ffmpeg, cause),
                    StartStep::Discard,
                ),
                (StartStep::FindPipe, StartEvent::Answer(found)) => if found {
                    self.at(StartStep::StartReader)
                } else {
                    self.failing(EncoderError::NoPipe, StartStep::Kill)
                },
                (StartStep::StartReader, StartEvent::Done) => self.at(StartStep::Running),
                (StartStep::StartReader, StartEvent::Failed(_, cause)) => self.failing(
                    EncoderError::NoReader(cause),
                    StartStep::Kill,
                ),
                // What comes of the last steps changes nothing.
                (StartStep::Kill, _) => self.at(StartStep::Discard),
                (StartStep::Discard, _) => self.at(StartStep::Over),
                _ => self,
            }
        }
    }

    fn go(self, step: StartStep) -> (r: Start)
        ensures
            r == self.at(step),
    {
        Start { step, ..self }
    }

    fn fail(self, error: EncoderError, step: StartStep) -> (r: Start)
        ensures
            r == self.failing(error, step),
    {
        Start { step, error: Some(error), ..self }
    }

    /// What follows the step, of which the event came.
    pub fn next(self, event: StartEvent) -> (r: Start)
        ensures
            r == self.after(event),
    {
        match self.step {
            StartStep::FindName => match event {
                StartEvent::Answer(true) => self.go(StartStep::CreateFolder),
                StartEvent::Answer(false) => self.fail(EncoderError::NoName, StartStep::Over),
                _ => self,
            },
            StartStep::CreateFolder => match event {
                StartEvent::Done => self.go(StartStep::CreatePartial),
                StartEvent::Failed(folder, cause) => self.fail(
                    EncoderError::Folder(folder, cause),
                    StartStep::Over,
                ),
                _ => self,
            },
            StartStep::CreatePartial => match event {
                StartEvent::Done => self.go(StartStep::StartFfmpeg),
                StartEvent::Taken => {
                    if self.attempts < RESERVE_ATTEMPTS - 1 {
                        let attempts: u32 = self.attempts + 1;
                        Start { attempts, ..self }
                    } else {
                        self.fail(EncoderError::NoPartial, StartStep::Over)
                    }
                },
                StartEvent::Failed(file, cause) => self.fail(
                    EncoderError::Partial(file, cause),
                    StartStep::Over,
                ),
                _ => self,
            },
            StartStep::StartFfmpeg => match event {
                StartEvent::Done => self.go(StartStep::FindPipe),
                StartEvent::Failed(ffmpeg, cause) => self.fail(
                    EncoderError::NotStarted(ffmpeg, cause),
                    StartStep::Discard,
                ),
                _ => self,
            },
            StartStep::FindPipe => match event {
                StartEvent::Answer(true) => self.go(StartStep::StartReader),
                StartEvent::Answer(false) => self.fail(EncoderError::NoPipe, StartStep::Kill),
                _ => self,
            },
            StartStep::StartReader => match event {
                StartEvent::Done => self.go(StartStep::Running),
                StartEvent::Failed(_, cause) => self.fail(
                    EncoderError::NoReader(cause),
                    StartStep::Kill,
                ),
                _ => self,
            },
            StartStep::Kill => match event {
                StartEvent::Done | StartEvent::Failed(_, _) => self.go(StartStep::Discard),
                _ => self,
            },
            StartStep::Discard => match event {
                StartEvent::Done | StartEvent::Failed(_, _) => self.go(StartStep::Over),
                _ => self,
            },
            StartStep::Running => self,
            StartStep::Over => self,
        }
    }
}

// ---------------------------------------------------------------------------
// The end of an encoding
// ---------------------------------------------------------------------------

/// What the end of an encoding does next.
#[derive(Clone, Copy, Debug, PartialEq, Eq, Structural)]
pub enum FinishStep {
    /// Close FFmpeg's input, which makes it flush everything, and wait for it.
    Wait,
    /// Take what FFmpeg said.
    ReadDiagnostics,
    /// Open the partial file.
    OpenPartial,
    /// Look how large it is.
    MeasurePartial,
    /// Sync it.
    SyncPartial,
    /// Link it to the name of the output, which fails where there is a file of
    /// that name.
    Publish,
    /// Remove the name of the partial file.
    RemovePartial,
    /// Sync the folder.
    SyncFolder,
    /// End FFmpeg on the way out.
    Kill,
    /// Remove the partial file on the way out.
    Discard,
    /// Nothing: the end is reached.
    Over,
}

/// What came of a step of the end of an encoding.
#[derive(Debug)]
pub enum FinishEvent {
    /// It was done.
    Done,
    /// It failed for this reason.
    Failed(String),
    /// FFmpeg ended, with success or not, with this status.
    Exit(bool, String),
    /// This is the last that FFmpeg said.
    Said(Vec<u8>),
    /// The reader of FFmpeg's words panicked.
    Panicked,
    /// The file has so many bytes.
    Size(u64),
}

/// The end of an encoding: what is done next, how FFmpeg ended, and why the file
/// is not published.
#[derive(Debug)]
pub struct Finish {
    pub step: FinishStep,
    pub exit: Option<(bool, String)>,
    pub error: Option<EncoderError>,
}

/// The event is one that can come of the step.
pub open spec fn finish_fits(step: FinishStep, event: FinishEvent) -> bool {
    match step {
        FinishStep::Wait => event is Exit || event is Failed,
        FinishStep::ReadDiagnostics => event is Said || event is Failed || event is Panicked,
        FinishStep::MeasurePartial => event is Size || event is Failed,
        FinishStep::Over => false,
        _ => event is Done || event is Failed,
    }
}

impl Finish {
    /// The end goes on with a step.
    pub open spec fn at(self, step: FinishStep) -> Finish {
        Finish { step, ..self }
    }

    /// The file is not published, and the end leaves by a step.
    pub open spec fn failing(self, error: EncoderError, step: FinishStep) -> Finish {
        Finish { step, error: Some(error), ..self }
    }

    /// What follows the step, of which the event came. An event that cannot come
    /// of the step changes nothing.
    pub open spec fn after(self, event: FinishEvent) -> Finish {
        if !finish_fits(self.step, event) {
            self
        } else {
            match (self.step, event) {
                (FinishStep::Wait, FinishEvent::Exit(success, status)) => Finish {
                    step: FinishStep::ReadDiagnostics,
                    exit: Some((success, status)),
                    ..self
                },
                (FinishStep::Wait, FinishEvent::Failed(cause)) => self.failing(
                    EncoderError::Unwaited(cause),
                    FinishStep::Kill,
                ),
                (FinishStep::ReadDiagnostics, FinishEvent::Said(last)) => match self.exit {
                    Some((false, status)) => self.failing(
                        EncoderError::Ffmpeg(status, last),
                        FinishStep::Discard,
                    ),
                    _ => self.at(FinishStep::OpenPartial),
                },
                (FinishStep::ReadDiagnostics, FinishEvent::Failed(cause)) => self.failing(
                    EncoderError::Unread(cause),
                    FinishStep::Discard,
                ),
                (FinishStep::ReadDiagnostics, FinishEvent::Panicked) => self.failing(
                    EncoderError::ReaderPanicked,
                    FinishStep::Discard,
                ),
                (FinishStep::OpenPartial, FinishEvent::Done) => self.at(
                    FinishStep::MeasurePartial,
                ),
                (FinishStep::OpenPartial, FinishEvent::Failed(cause)) => self.failing(
                    EncoderError::NoFile(cause),
                    FinishStep::Discard,
                ),
                (FinishStep::MeasurePartial, FinishEvent::Size(size)) => if size == 0 {
                    self.failing(EncoderError::EmptyFile, FinishStep::Discard)
                } else {
                    self.at(FinishStep::SyncPartial)
                },
                (FinishStep::MeasurePartial, FinishEvent::Failed(cause)) => self.failing(
                    EncoderError::Unmeasured(cause),
                    FinishStep::Discard,
                ),
                (FinishStep::SyncPartial, FinishEvent::Done) => self.at(FinishStep::Publish),
                (FinishStep::SyncPartial, FinishEvent::Failed(cause)) => self.failing(
                    EncoderError::Unsynced(cause),
                    FinishStep::Discard,
                ),
                (FinishStep::Publish, FinishEvent::Done) => self.at(FinishStep::RemovePartial),
                (FinishStep::Publish, FinishEvent::Failed(cause)) => self.failing(
                    EncoderError::Unpublished(cause),
                    FinishStep::Discard,
                ),
                // What comes of the last steps changes nothing: the file is
                // published by then, or given up.
                (FinishStep::RemovePartial, _) => self.at(FinishStep::SyncFolder),
                (FinishStep::SyncFolder, _) => self.at(FinishStep::Discard),
                (FinishStep::Kill, _) => self.at(FinishStep::Discard),
                (FinishStep::Discard, _) => self.at(FinishStep::Over),
                _ => self,
            }
        }
    }

    fn go(self, step: FinishStep) -> (r: Finish)
        ensures
            r == self.at(step),
    {
        Finish { step, ..self }
    }

    fn fail(self, error: EncoderError, step: FinishStep) -> (r: Finish)
        ensures
            r == self.failing(error, step),
    {
        Finish { step, error: Some(error), ..self }
    }

    fn regardless(self, event: FinishEvent, step: FinishStep) -> (r: Finish)
        ensures
            r == (if event is Done || event is Failed {
                self.at(step)
            } else {
                self
            }),
    {
        match event {
            FinishEvent::Done | FinishEvent::Failed(_) => self.go(step),
            _ => self,
        }
    }

    /// What follows the step, of which the event came.
    pub fn next(self, event: FinishEvent) -> (r: Finish)
        ensures
            r == self.after(event),
    {
        match self.step {
            FinishStep::Wait => match event {
                FinishEvent::Exit(success, status) => Finish {
                    step: FinishStep::ReadDiagnostics,
                    exit: Some((success, status)),
                    ..self
                },
                FinishEvent::Failed(cause) => self.fail(
                    EncoderError::Unwaited(cause),
                    FinishStep::Kill,
                ),
                _ => self,
            },
            FinishStep::ReadDiagnostics => match event {
                FinishEvent::Said(last) => match &self.exit {
                    Some((false, status)) => {
                        let status = status.clone();
                        self.fail(EncoderError::Ffmpeg(status, last), FinishStep::Discard)
                    },
                    _ => self.go(FinishStep::OpenPartial),
                },
                FinishEvent::Failed(cause) => self.fail(
                    EncoderError::Unread(cause),
                    FinishStep::Discard,
                ),
                FinishEvent::Panicked => self.fail(
                    EncoderError::ReaderPanicked,
                    FinishStep::Discard,
                ),
                _ => self,
            },
            FinishStep::OpenPartial => match event {
                FinishEvent::Done => self.go(FinishStep::MeasurePartial),
                FinishEvent::Failed(cause) => self.fail(
                    EncoderError::NoFile(cause),
                    FinishStep::Discard,
                ),
                _ => self,
            },
            FinishStep::MeasurePartial => match event {
                FinishEvent::Size(size) => {
                    if size == 0 {
                        self.fail(EncoderError::EmptyFile, FinishStep::Discard)
                    } else {
                        self.go(FinishStep::SyncPartial)
                    }
                },
                FinishEvent::Failed(cause) => self.fail(
                    EncoderError::Unmeasured(cause),
                    FinishStep::Discard,
                ),
                _ => self,
            },
            FinishStep::SyncPartial => match event {
                FinishEvent::Done => self.go(FinishStep::Publish),
                FinishEvent::Failed(cause) => self.fail(
                    EncoderError::Unsynced(cause),
                    FinishStep::Discard,
                ),
                _ => self,
            },
            FinishStep::Publish => match event {
                FinishEvent::Done => self.go(FinishStep::RemovePartial),
                FinishEvent::Failed(cause) => self.fail(
                    EncoderError::Unpublished(cause),
                    FinishStep::Discard,
                ),
                _ => self,
            },
            FinishStep::RemovePartial => self.regardless(event, FinishStep::SyncFolder),
            FinishStep::SyncFolder => self.regardless(event, FinishStep::Discard),
            FinishStep::Kill => self.regardless(event, FinishStep::Discard),
            FinishStep::Discard => self.regardless(event, FinishStep::Over),
            FinishStep::Over => self,
        }
    }
}

// ---------------------------------------------------------------------------
// Laws of the encoder
// ---------------------------------------------------------------------------

/// One write: how many samples, and what became of them.
pub struct Write {
    pub count: nat,
    pub outcome: Written,
}

/// The account after several writes.
pub open spec fn after_writes(start: EncoderView, writes: Seq<Write>) -> EncoderView
    decreases writes.len(),
{
    if writes.len() == 0 {
        start
    } else {
        after_writes(start, writes.drop_last()).written(
            writes.last().count,
            writes.last().outcome,
        ).1
    }
}

/// How many samples are in the writes that FFmpeg accepted.
pub open spec fn accepted(writes: Seq<Write>) -> nat
    decreases writes.len(),
{
    if writes.len() == 0 {
        0
    } else {
        accepted(writes.drop_last()) + (if writes.last().outcome == Written::Accepted {
            writes.last().count
        } else {
            0
        })
    }
}

/// An encoder whose writes were not refused, and not too many to count, has
/// counted just the samples that FFmpeg accepted.
pub proof fn law_samples_are_those_accepted(writes: Seq<Write>)
    requires
        accepted(writes) <= u64::MAX,
        forall|i: int| 0 <= i < writes.len() ==> (#[trigger] writes[i]).outcome != Written::Refused,
    ensures
        after_writes(EncoderView { samples: 0, failed: false }, writes) == (EncoderView {
            samples: accepted(writes),
            failed: false,
        }),
    decreases writes.len(),
{
    if writes.len() > 0 {
        assert forall|i: int| 0 <= i < writes.drop_last().len() implies (
        #[trigger] writes.drop_last()[i]).outcome != Written::Refused by {
            assert(writes[i].outcome != Written::Refused);
        }
        law_samples_are_those_accepted(writes.drop_last());
        assert(writes[writes.len() - 1].outcome != Written::Refused);
    }
}

/// After a write that failed nothing more is written and nothing is published,
/// whatever is tried.
pub proof fn law_failure_is_final(start: EncoderView, writes: Seq<Write>, count: nat)
    requires
        start.failed,
    ensures
        after_writes(start, writes) == start,
        after_writes(start, writes).write_refused(count) == Some(EncoderError::WriteAfterFailure),
        after_writes(start, writes).finish_refused() == Some(EncoderError::FinishAfterFailure),
    decreases writes.len(),
{
    if writes.len() > 0 {
        law_failure_is_final(start, writes.drop_last(), count);
    }
}

/// A write that is turned down or fails never changes how many samples are
/// counted, and only a failure of FFmpeg's input marks the encoder as failed.
pub proof fn law_refused_writes_count_nothing(encoder: EncoderView, count: nat, outcome: Written)
    ensures
        encoder.written(count, outcome).0 is Err ==> encoder.written(count, outcome).1.samples
            == encoder.samples,
        encoder.written(count, outcome).1.failed ==> encoder.failed || outcome == Written::Refused,
{
}

/// The end of an encoding after all these events.
pub open spec fn finish_run(start: Finish, events: Seq<FinishEvent>) -> Finish
    decreases events.len(),
{
    if events.len() == 0 {
        start
    } else {
        finish_run(start, events.drop_last()).after(events.last())
    }
}

/// Each event is one that can come of the step that it answers.
pub open spec fn finish_possible(start: Finish, events: Seq<FinishEvent>) -> bool
    decreases events.len(),
{
    events.len() > 0 ==> {
        &&& finish_possible(start, events.drop_last())
        &&& finish_fits(finish_run(start, events.drop_last()).step, events.last())
    }
}

/// What is outside an encoding. What was undone counts as undone whether or not
/// the undoing succeeded.
pub struct Traces {
    /// FFmpeg runs.
    pub running: bool,
    /// There is a partial file.
    pub partial: bool,
    /// FFmpeg ended with success.
    pub encoded: bool,
    /// The partial file was seen to hold something.
    pub filled: bool,
    /// The partial file was synced.
    pub synced: bool,
    /// The file was published.
    pub published: bool,
}

/// What is there before the end of an encoding.
pub open spec fn encoding() -> Traces {
    Traces {
        running: true,
        partial: true,
        encoded: false,
        filled: false,
        synced: false,
        published: false,
    }
}

impl Traces {
    /// What is there after a step of which an event came.
    pub open spec fn after(self, step: FinishStep, event: FinishEvent) -> Traces {
        match step {
            FinishStep::Wait => Traces {
                running: !(event is Exit),
                encoded: event is Exit && event->Exit_0,
                ..self
            },
            FinishStep::Kill => Traces { running: false, ..self },
            FinishStep::MeasurePartial => Traces {
                filled: event is Size && event->Size_0 > 0,
                ..self
            },
            FinishStep::SyncPartial => Traces { synced: event is Done, ..self },
            FinishStep::Publish => Traces { published: event is Done, ..self },
            FinishStep::RemovePartial | FinishStep::Discard => Traces { partial: false, ..self },
            _ => self,
        }
    }
}

/// What is there after all these events.
pub open spec fn traces(start: Finish, events: Seq<FinishEvent>) -> Traces
    decreases events.len(),
{
    if events.len() == 0 {
        encoding()
    } else {
        traces(start, events.drop_last()).after(
            finish_run(start, events.drop_last()).step,
            events.last(),
        )
    }
}

/// The end of an encoding that is finished or given up has just begun.
pub open spec fn at_end(start: Finish) -> bool {
    &&& start.step == FinishStep::Wait || start.step == FinishStep::Kill
    &&& start.exit is None
    &&& start.error is None
}

spec fn finish_rank(step: FinishStep) -> int {
    match step {
        FinishStep::Wait => 10,
        FinishStep::ReadDiagnostics => 9,
        FinishStep::OpenPartial => 8,
        FinishStep::MeasurePartial => 7,
        FinishStep::SyncPartial => 6,
        FinishStep::Publish => 5,
        FinishStep::RemovePartial => 4,
        FinishStep::SyncFolder => 3,
        FinishStep::Kill => 2,
        FinishStep::Discard => 1,
        FinishStep::Over => 0,
    }
}

spec fn succeeded(exit: Option<(bool, String)>) -> bool {
    match exit {
        Some((success, _)) => success,
        None => false,
    }
}

spec fn finish_accord(start: Finish, finish: Finish, traces: Traces) -> bool {
    let step = finish.step;
    &&& traces.running == (step == FinishStep::Wait || step == FinishStep::Kill)
    &&& step == FinishStep::Over ==> !traces.partial
    &&& succeeded(finish.exit) ==> traces.encoded
    &&& 3 <= finish_rank(step) <= 9 ==> finish.exit is Some
    &&& 3 <= finish_rank(step) <= 8 ==> succeeded(finish.exit)
    &&& 3 <= finish_rank(step) <= 6 ==> traces.filled
    &&& 3 <= finish_rank(step) <= 5 ==> traces.synced
    &&& traces.published ==> traces.encoded && traces.filled && traces.synced
    &&& 3 <= finish_rank(step) <= 4 ==> traces.published
    &&& finish_rank(step) >= 5 ==> !traces.published
    &&& finish_rank(step) >= 3 ==> finish.error is None && start.step == FinishStep::Wait
    &&& finish_rank(step) <= 2 ==> (traces.published <==> finish.error is None && start.step
        == FinishStep::Wait)
}

proof fn lemma_finish(start: Finish, events: Seq<FinishEvent>)
    requires
        at_end(start),
        finish_possible(start, events),
    ensures
        finish_accord(start, finish_run(start, events), traces(start, events)),
        finish_rank(finish_run(start, events).step) + events.len() <= 10,
    decreases events.len(),
{
    if events.len() > 0 {
        lemma_finish(start, events.drop_last());
    }
}

/// However an encoding ends, finished or given up, nothing is left behind: FFmpeg
/// has ended, and there is no partial file. It takes at most ten steps.
pub proof fn law_encoding_leaves_nothing(start: Finish, events: Seq<FinishEvent>)
    requires
        at_end(start),
        finish_possible(start, events),
    ensures
        events.len() <= 10,
        finish_run(start, events).step == FinishStep::Over ==> !traces(start, events).running
            && !traces(start, events).partial,
{
    lemma_finish(start, events);
}

/// Only a file that FFmpeg completed with success, that holds something and that
/// is synced is published, and an encoding that is given up publishes none.
pub proof fn law_only_complete_files_are_published(start: Finish, events: Seq<FinishEvent>)
    requires
        at_end(start),
        finish_possible(start, events),
        traces(start, events).published,
    ensures
        start.step == FinishStep::Wait,
        traces(start, events).encoded,
        traces(start, events).filled,
        traces(start, events).synced,
{
    lemma_finish(start, events);
}

/// An encoding that was finished reports no error exactly where its file was
/// published.
pub proof fn law_success_means_published(start: Finish, events: Seq<FinishEvent>)
    requires
        at_end(start),
        start.step == FinishStep::Wait,
        finish_possible(start, events),
        finish_run(start, events).step == FinishStep::Over,
    ensures
        finish_run(start, events).error is None <==> traces(start, events).published,
{
    lemma_finish(start, events);
}

/// The start of an encoding after all these events.
pub open spec fn start_run(start: Start, events: Seq<StartEvent>) -> Start
    decreases events.len(),
{
    if events.len() == 0 {
        start
    } else {
        start_run(start, events.drop_last()).after(events.last())
    }
}

/// Each event is one that can come of the step that it answers.
pub open spec fn start_possible(start: Start, events: Seq<StartEvent>) -> bool
    decreases events.len(),
{
    events.len() > 0 ==> {
        &&& start_possible(start, events.drop_last())
        &&& start_fits(start_run(start, events.drop_last()).step, events.last())
    }
}

/// What the start of an encoding has made. What was undone counts as undone whether
/// or not the undoing succeeded.
pub struct Made {
    /// There is a partial file.
    pub partial: bool,
    /// FFmpeg runs.
    pub running: bool,
    /// FFmpeg's words are read.
    pub read: bool,
}

impl Made {
    /// What there is after a step of which an event came.
    pub open spec fn after(self, step: StartStep, event: StartEvent) -> Made {
        match step {
            StartStep::CreatePartial => Made { partial: event is Done, ..self },
            StartStep::StartFfmpeg => Made { running: event is Done, ..self },
            StartStep::StartReader => Made { read: event is Done, ..self },
            StartStep::Kill => Made { running: false, read: false, ..self },
            StartStep::Discard => Made { partial: false, ..self },
            _ => self,
        }
    }
}

/// What there is after all these events.
pub open spec fn made(start: Start, events: Seq<StartEvent>) -> Made
    decreases events.len(),
{
    if events.len() == 0 {
        Made { partial: false, running: false, read: false }
    } else {
        made(start, events.drop_last()).after(
            start_run(start, events.drop_last()).step,
            events.last(),
        )
    }
}

/// The start of an encoding has just begun.
pub open spec fn at_start(start: Start) -> bool {
    start == (Start { step: StartStep::FindName, attempts: 0, error: None })
}

spec fn start_rank(start: Start) -> int {
    let again = RESERVE_ATTEMPTS - start.attempts;
    match start.step {
        StartStep::FindName => 7 + again,
        StartStep::CreateFolder => 6 + again,
        StartStep::CreatePartial => 5 + again,
        StartStep::StartFfmpeg => 5,
        StartStep::FindPipe => 4,
        StartStep::StartReader => 3,
        StartStep::Kill => 2,
        StartStep::Discard => 1,
        StartStep::Running => 0,
        StartStep::Over => 0,
    }
}

spec fn start_accord(start: Start, made: Made) -> bool {
    let step = start.step;
    &&& made.partial == (step == StartStep::StartFfmpeg || step == StartStep::FindPipe || step
        == StartStep::StartReader || step == StartStep::Kill || step == StartStep::Discard || step
        == StartStep::Running)
    &&& made.running == (step == StartStep::FindPipe || step == StartStep::StartReader || step
        == StartStep::Kill || step == StartStep::Running)
    &&& made.read == (step == StartStep::Running)
    &&& start.error is Some == (step == StartStep::Kill || step == StartStep::Discard || step
        == StartStep::Over)
    &&& start.attempts < RESERVE_ATTEMPTS
}

proof fn lemma_start(start: Start, events: Seq<StartEvent>)
    requires
        at_start(start),
        start_possible(start, events),
    ensures
        start_accord(start_run(start, events), made(start, events)),
        start_rank(start_run(start, events)) + events.len() <= 7 + RESERVE_ATTEMPTS,
    decreases events.len(),
{
    if events.len() > 0 {
        lemma_start(start, events.drop_last());
    }
}

/// An encoding that does not start says why, and has removed what it created: there
/// is no partial file, and no FFmpeg runs. One that starts has both. One of the two
/// is reached within a hundred and thirty-five steps.
pub proof fn law_failed_start_leaves_nothing(start: Start, events: Seq<StartEvent>)
    requires
        at_start(start),
        start_possible(start, events),
    ensures
        events.len() <= 135,
        start_run(start, events).step == StartStep::Over ==> start_run(start, events).error is Some
            && !made(start, events).partial && !made(start, events).running,
        start_run(start, events).step == StartStep::Running ==> start_run(start, events).error
            is None && made(start, events).partial && made(start, events).running && made(
            start,
            events,
        ).read,
{
    lemma_start(start, events);
}

// ---------------------------------------------------------------------------
// PCM audio
// ---------------------------------------------------------------------------

/// The bits of a sample as four bytes, the least significant first.
pub open spec fn little_endian(bits: u32) -> Seq<u8> {
    seq![
        (bits % 256) as u8,
        (bits / 0x100 % 256) as u8,
        (bits / 0x1_0000 % 256) as u8,
        (bits / 0x100_0000) as u8,
    ]
}

/// The bytes that FFmpeg is sent for samples: four for each.
pub open spec fn pcm(samples: Seq<u32>) -> Seq<u8>
    decreases samples.len(),
{
    if samples.len() == 0 {
        Seq::empty()
    } else {
        pcm(samples.drop_last()) + little_endian(samples.last())
    }
}

/// The bytes that FFmpeg is sent for samples, which are given by their bits.
pub fn pcm_bytes(samples: &[u32]) -> (r: Vec<u8>)
    ensures
        r@ == pcm(samples@),
{
    let mut out: Vec<u8> = Vec::new();
    assert(samples@.take(0) =~= Seq::empty());
    for i in 0..samples.len()
        invariant
            out@ == pcm(samples@.take(i as int)),
    {
        let ghost before = out@;
        let bits: u32 = samples[i];
        out.push((bits % 256) as u8);
        out.push((bits / 0x100 % 256) as u8);
        out.push((bits / 0x1_0000 % 256) as u8);
        out.push((bits / 0x100_0000) as u8);
        assert(out@ =~= before + little_endian(bits));
        let ghost next = samples@.take(i as int + 1);
        assert(next.drop_last() =~= samples@.take(i as int));
        assert(next.last() == samples@[i as int]);
    }
    assert(samples@.take(samples@.len() as int) =~= samples@);
    out
}

/// It makes no difference in how many writes samples are sent: the bytes of two
/// writes, one after the other, are those of one write of all the samples.
pub proof fn law_writes_join(a: Seq<u32>, b: Seq<u32>)
    ensures
        pcm(a + b) == pcm(a) + pcm(b),
        pcm(a).len() == 4 * a.len(),
    decreases a.len() + b.len(),
{
    if b.len() == 0 {
        assert(a + b =~= a);
        assert(pcm(a) + pcm(b) =~= pcm(a));
        if a.len() > 0 {
            law_writes_join(a.drop_last(), b);
        }
    } else {
        law_writes_join(a, b.drop_last());
        assert((a + b).drop_last() =~= a + b.drop_last());
        assert((a + b).last() == b.last());
        assert(pcm(a + b) =~= pcm(a) + pcm(b));
    }
}

/// Two writes that FFmpeg takes count as one write of all the samples, in samples
/// and in frames.
pub proof fn law_counts_join(encoder: EncoderView, a: nat, b: nat)
    requires
        encoder.written(a + b, Written::Accepted).0 is Ok,
    ensures
        encoder.written(a, Written::Accepted).0 is Ok,
        encoder.written(a, Written::Accepted).1.written(b, Written::Accepted)
            == encoder.written(a + b, Written::Accepted),
        encoder.written(a + b, Written::Accepted).1.samples == encoder.samples + a + b,
        encoder.samples == 0 ==> encoder.written(a + b, Written::Accepted).1.samples / (
        CHANNELS as nat) == (a + b) / 2,
{
}

// ---------------------------------------------------------------------------
// Partial files
// ---------------------------------------------------------------------------

/// What follows the name of the output in the name of a partial file.
pub open spec fn partial_suffix(process: nat, stamp: nat, sequence: nat) -> Seq<char> {
    "."@ + text::decimal(process) + "."@ + text::decimal(stamp) + "."@ + text::decimal(sequence)
        + ".partial"@
}

/// The name of a partial file for the output `name`: hidden, and with the
/// process, the time and a counter in it.
pub open spec fn partial_file(name: Seq<u8>, process: nat, stamp: nat, sequence: nat) -> Seq<u8> {
    vstd::utf8::encode_utf8("."@) + name + vstd::utf8::encode_utf8(
        partial_suffix(process, stamp, sequence),
    )
}

/// The name of a partial file for the output `name`.
pub fn partial_name(name: &[u8], process: u32, stamp: u128, sequence: u64) -> (r: Vec<u8>)
    ensures
        r@ == partial_file(name@, process as nat, stamp as nat, sequence as nat),
{
    let suffix = ".".to_owned().concat(text::number(process as u128).as_str()).concat(".").concat(
        text::number(stamp).as_str(),
    ).concat(".").concat(text::number(sequence as u128).as_str()).concat(".partial");
    let mut out = vstd::slice::slice_to_vec(".".as_bytes());
    push_bytes(&mut out, name);
    push_bytes(&mut out, suffix.as_str().as_bytes());
    out
}

pub(crate) fn push_bytes(out: &mut Vec<u8>, bytes: &[u8])
    ensures
        final(out)@ == old(out)@ + bytes@,
{
    let ghost start = out@;
    assert(start + bytes@.take(0) =~= start);
    for i in 0..bytes.len()
        invariant
            out@ == start + bytes@.take(i as int),
    {
        out.push(bytes[i]);
        assert(bytes@.take(i as int + 1) =~= bytes@.take(i as int).push(bytes@[i as int]));
        assert(out@ =~= start + bytes@.take(i as int + 1));
    }
    assert(bytes@.take(bytes@.len() as int) =~= bytes@);
}

/// Partial files of different processes, times or counters have different
/// names.
pub proof fn law_partial_names_differ(
    name: Seq<u8>,
    process1: nat,
    stamp1: nat,
    sequence1: nat,
    process2: nat,
    stamp2: nat,
    sequence2: nat,
)
    requires
        partial_file(name, process1, stamp1, sequence1) == partial_file(
            name,
            process2,
            stamp2,
            sequence2,
        ),
    ensures
        process1 == process2,
        stamp1 == stamp2,
        sequence1 == sequence2,
{
    let s1 = partial_suffix(process1, stamp1, sequence1);
    let s2 = partial_suffix(process2, stamp2, sequence2);
    let head = vstd::utf8::encode_utf8("."@) + name;
    let b1 = vstd::utf8::encode_utf8(s1);
    let b2 = vstd::utf8::encode_utf8(s2);
    assert((head + b1).skip(head.len() as int) =~= b1);
    assert((head + b2).skip(head.len() as int) =~= b2);
    vstd::utf8::encode_utf8_decode_utf8(s1);
    vstd::utf8::encode_utf8_decode_utf8(s2);
    assert(s1 == s2);
    lemma_suffix_parts(process1, stamp1, sequence1);
    lemma_suffix_parts(process2, stamp2, sequence2);
    let p = text::split(text::Charset::One('.'), s1);
    text::lemma_decimal_plain(process1, '.');
    text::lemma_decimal_plain(stamp1, '.');
    text::lemma_decimal_plain(sequence1, '.');
    text::lemma_decimal_plain(process2, '.');
    text::lemma_decimal_plain(stamp2, '.');
    text::lemma_decimal_plain(sequence2, '.');
    assert(p[1] == text::decimal(process1) && p[1] == text::decimal(process2));
    assert(p[2] == text::decimal(stamp1) && p[2] == text::decimal(stamp2));
    assert(p[3] == text::decimal(sequence1) && p[3] == text::decimal(sequence2));
}

proof fn lemma_suffix_parts(process: nat, stamp: nat, sequence: nat)
    ensures
        text::split(text::Charset::One('.'), partial_suffix(process, stamp, sequence)) == seq![
            Seq::empty(),
            text::decimal(process),
            text::decimal(stamp),
            text::decimal(sequence),
            "partial"@,
        ],
{
    reveal_strlit(".");
    reveal_strlit(".partial");
    reveal_strlit("partial");
    let dot = text::Charset::One('.');
    let none = Seq::<char>::empty();
    text::lemma_decimal_plain(process, '.');
    text::lemma_decimal_plain(stamp, '.');
    text::lemma_decimal_plain(sequence, '.');
    let a = none.push('.') + text::decimal(process);
    text::lemma_split_last(dot, none, '.', text::decimal(process));
    let b = a.push('.') + text::decimal(stamp);
    text::lemma_split_last(dot, a, '.', text::decimal(stamp));
    let c = b.push('.') + text::decimal(sequence);
    text::lemma_split_last(dot, b, '.', text::decimal(sequence));
    text::lemma_split_last(dot, c, '.', "partial"@);
    assert(partial_suffix(process, stamp, sequence) =~= c.push('.') + "partial"@);
    assert(text::split(dot, none) =~= seq![none]);
    assert(text::split(dot, c.push('.') + "partial"@) =~= seq![
        none,
        text::decimal(process),
        text::decimal(stamp),
        text::decimal(sequence),
        "partial"@,
    ]);
}

// ---------------------------------------------------------------------------
// Diagnostics
// ---------------------------------------------------------------------------

/// The last `n` bytes of `bytes`, or all of them where there are fewer.
pub open spec fn last_bytes(bytes: Seq<u8>, n: nat) -> Seq<u8> {
    if bytes.len() <= n {
        bytes
    } else {
        bytes.skip(bytes.len() - n)
    }
}

/// The end of a stream of which only the last bytes are kept.
pub struct BoundedTail {
    limit: usize,
    bytes: Vec<u8>,
}

impl BoundedTail {
    /// How many bytes are kept.
    pub closed spec fn room(self) -> nat {
        self.limit as nat
    }

    /// The bytes that are kept.
    pub closed spec fn kept(self) -> Seq<u8> {
        self.bytes@
    }

    /// No more is kept than there is room for.
    pub open spec fn wf(self) -> bool {
        self.kept().len() <= self.room()
    }

    /// The end of a stream of which nothing was read.
    pub fn new(limit: usize) -> (r: BoundedTail)
        ensures
            r.wf(),
            r.room() == limit,
            r.kept() == Seq::<u8>::empty(),
    {
        BoundedTail { limit, bytes: Vec::new() }
    }

    /// Reads on: the kept bytes are the last of those kept so far and the new.
    pub fn read_bounded_tail(&mut self, block: &[u8])
        requires
            old(self).wf(),
        ensures
            final(self).wf(),
            final(self).room() == old(self).room(),
            final(self).kept() == last_bytes(old(self).kept() + block@, old(self).room()),
    {
        let count: usize = block.len();
        let ghost before = self.bytes@;
        if count >= self.limit {
            self.bytes = vstd::slice::slice_to_vec(
                vstd::slice::slice_subrange(block, count - self.limit, count),
            );
            assert(self.bytes@ =~= last_bytes(before + block@, self.limit as nat));
        } else {
            let room: usize = self.limit - count;
            if self.bytes.len() > room {
                let discarded: usize = self.bytes.len() - room;
                let rest = self.bytes.split_off(discarded);
                self.bytes = rest;
            }
            push_bytes(&mut self.bytes, block);
            assert(self.bytes@ =~= last_bytes(before + block@, self.limit as nat));
        }
    }

    /// The bytes that are kept.
    pub fn into_bytes(self) -> (r: Vec<u8>)
        ensures
            r@ == self.kept(),
    {
        self.bytes
    }
}

/// The bytes that are kept of a stream that is read block by block.
pub open spec fn tail_after(blocks: Seq<Seq<u8>>, n: nat) -> Seq<u8>
    decreases blocks.len(),
{
    if blocks.len() == 0 {
        Seq::empty()
    } else {
        last_bytes(tail_after(blocks.drop_last(), n) + blocks.last(), n)
    }
}

/// However a stream is cut into blocks, the bytes that are kept are its last.
pub proof fn law_tail_is_end_of_stream(blocks: Seq<Seq<u8>>, n: nat)
    ensures
        tail_after(blocks, n) == last_bytes(blocks.flatten(), n),
    decreases blocks.len(),
{
    blocks.lemma_flatten_and_flatten_alt_are_equivalent();
    if blocks.len() > 0 {
        let before = blocks.drop_last();
        law_tail_is_end_of_stream(before, n);
        before.lemma_flatten_and_flatten_alt_are_equivalent();
        let all = before.flatten();
        let last = blocks.last();
        assert(last_bytes(last_bytes(all, n) + last, n) =~= last_bytes(all + last, n));
    }
}

// ---------------------------------------------------------------------------
// Laws of the arguments
// ---------------------------------------------------------------------------

/// The word `option` stands directly before the word `value`.
pub open spec fn followed(args: Seq<ArgView>, option: Seq<char>, value: Seq<char>) -> bool {
    exists|i: int|
        0 <= i < args.len() - 1 && (#[trigger] args[i]) == ArgView::Text(option) && args[i + 1]
            == ArgView::Text(value)
}

/// Some metadata option sets the tag `key` to `value`.
pub open spec fn sets(args: Seq<ArgView>, key: Seq<char>, value: Seq<char>) -> bool {
    followed(args, "-metadata"@, key + seq!['='] + value)
}

/// Pairs of the metadata option and something else.
spec fn paired(args: Seq<ArgView>) -> bool {
    &&& args.len() % 2 == 0
    &&& forall|i: int|
        0 <= i < args.len() ==> ((#[trigger] args[i]) == ArgView::Text("-metadata"@) <==> i % 2
            == 0)
}

/// The metadata option does not stand among the arguments.
pub open spec fn without_tags(args: Seq<ArgView>) -> bool {
    forall|i: int| 0 <= i < args.len() ==> (#[trigger] args[i]) != ArgView::Text("-metadata"@)
}

/// Two keys that differ early.
spec fn told_apart(a: Seq<char>, b: Seq<char>) -> bool {
    a.len() >= 2 && b.len() >= 2 && (a[0] != b[0] || a[1] != b[1])
}

proof fn lemma_one_tag(
    own: Seq<char>,
    value: Option<Seq<char>>,
    key: Seq<char>,
    wanted: Seq<char>,
)
    requires
        own == key || told_apart(own, key),
        own.len() > 0,
        own[0] != '-',
    ensures
        paired(tag_args(own, value)),
        sets(tag_args(own, value), key, wanted) <==> own == key && value == Some(wanted),
{
    reveal_strlit("=");
    reveal_strlit("-metadata");
    assert("="@ =~= seq!['=']);
    let args = tag_args(own, value);
    if let Some(v) = value {
        let word = own + "="@ + v;
        assert(word[0] == own[0]);
        assert(args =~= seq![ArgView::Text("-metadata"@), ArgView::Text(word)]);
        assert(word != "-metadata"@);
        let sought = key + seq!['='] + wanted;
        if own == key && v == wanted {
            assert(args[0] == ArgView::Text("-metadata"@) && args[1] == ArgView::Text(sought));
        }
        if sets(args, key, wanted) {
            assert(word == sought);
            assert(sought[0] == key[0] || key.len() == 0);
            if own != key {
                assert(word[0] == sought[0] && word[1] == sought[1]);
                assert(word[1] == own[1] && sought[1] == key[1]);
            }
            let n = own.len() as int + 1;
            assert(v =~= word.subrange(n, word.len() as int));
            assert(wanted =~= sought.subrange(n, sought.len() as int));
        }
    }
}

proof fn lemma_sets_join(
    first: Seq<ArgView>,
    second: Seq<ArgView>,
    key: Seq<char>,
    value: Seq<char>,
)
    requires
        paired(first),
        paired(second),
    ensures
        paired(first + second),
        sets(first + second, key, value) <==> sets(first, key, value) || sets(second, key, value),
{
    let whole = first + second;
    let n = first.len() as int;
    let word = ArgView::Text(key + seq!['='] + value);
    let option = ArgView::Text("-metadata"@);
    assert forall|i: int| 0 <= i < whole.len() implies ((#[trigger] whole[i]) == option <==> i % 2
        == 0) by {
        if i < n {
            assert(whole[i] == first[i]);
        } else {
            assert(whole[i] == second[i - n]);
        }
    }
    if sets(first, key, value) {
        let i = choose|i: int|
            0 <= i < first.len() - 1 && (#[trigger] first[i]) == option && first[i + 1] == word;
        assert(whole[i] == option && whole[i + 1] == word);
    }
    if sets(second, key, value) {
        let i = choose|i: int|
            0 <= i < second.len() - 1 && (#[trigger] second[i]) == option && second[i + 1] == word;
        assert(whole[i + n] == option && whole[i + n + 1] == word);
    }
    if sets(whole, key, value) {
        let i = choose|i: int|
            0 <= i < whole.len() - 1 && (#[trigger] whole[i]) == option && whole[i + 1] == word;
        if i < n {
            assert(first[i] == option && first[i + 1] == word);
        } else {
            assert(second[i - n] == option && second[i - n + 1] == word);
        }
    }
}

proof fn lemma_tags_set(tags: MetadataView, key: Seq<char>, value: Seq<char>)
    requires
        key == "title"@ || key == "artist"@ || key == "album"@ || key == "date"@ || key
            == "track"@ || key == "disc"@,
    ensures
        paired(metadata_args(tags)),
        sets(metadata_args(tags), key, value) <==> {
            ||| key == "title"@ && tags.title == Some(value)
            ||| key == "artist"@ && tags.artist == Some(value)
            ||| key == "album"@ && tags.album == Some(value)
            ||| key == "date"@ && tags.date == Some(value)
            ||| key == "track"@ && tags.track == Some(value)
            ||| key == "disc"@ && tags.disc == Some(value)
        },
{
    reveal_strlit("title");
    reveal_strlit("artist");
    reveal_strlit("album");
    reveal_strlit("date");
    reveal_strlit("track");
    reveal_strlit("disc");
    let title = tag_args("title"@, tags.title);
    let artist = tag_args("artist"@, tags.artist);
    let album = tag_args("album"@, tags.album);
    let date = tag_args("date"@, tags.date);
    let track = tag_args("track"@, tags.track);
    let disc = tag_args("disc"@, tags.disc);
    lemma_one_tag("title"@, tags.title, key, value);
    lemma_one_tag("artist"@, tags.artist, key, value);
    lemma_one_tag("album"@, tags.album, key, value);
    lemma_one_tag("date"@, tags.date, key, value);
    lemma_one_tag("track"@, tags.track, key, value);
    lemma_one_tag("disc"@, tags.disc, key, value);
    lemma_sets_join(title, artist, key, value);
    lemma_sets_join(title + artist, album, key, value);
    lemma_sets_join(title + artist + album, date, key, value);
    lemma_sets_join(title + artist + album + date, track, key, value);
    lemma_sets_join(title + artist + album + date + track, disc, key, value);
}

/// Each tag goes to FFmpeg under its own key: for every value, the metadata option
/// stands before `key=value` exactly when the tag of that key has that value.
pub proof fn law_each_tag_has_its_key(tags: MetadataView, value: Seq<char>)
    ensures
        sets(metadata_args(tags), "title"@, value) <==> tags.title == Some(value),
        sets(metadata_args(tags), "artist"@, value) <==> tags.artist == Some(value),
        sets(metadata_args(tags), "album"@, value) <==> tags.album == Some(value),
        sets(metadata_args(tags), "date"@, value) <==> tags.date == Some(value),
        sets(metadata_args(tags), "track"@, value) <==> tags.track == Some(value),
        sets(metadata_args(tags), "disc"@, value) <==> tags.disc == Some(value),
{
    reveal_strlit("title");
    reveal_strlit("artist");
    reveal_strlit("album");
    reveal_strlit("date");
    reveal_strlit("track");
    reveal_strlit("disc");
    assert("title"@[1] == 'i' && "track"@[1] == 'r');
    assert("artist"@[1] == 'r' && "album"@[1] == 'l');
    assert("date"@[1] == 'a' && "disc"@[1] == 'i');
    assert("title"@[0] == 't' && "artist"@[0] == 'a' && "date"@[0] == 'd' && "track"@[0] == 't'
        && "album"@[0] == 'a' && "disc"@[0] == 'd');
    lemma_tags_set(tags, "title"@, value);
    lemma_tags_set(tags, "artist"@, value);
    lemma_tags_set(tags, "album"@, value);
    lemma_tags_set(tags, "date"@, value);
    lemma_tags_set(tags, "track"@, value);
    lemma_tags_set(tags, "disc"@, value);
}

/// One if a tag is set.
pub open spec fn count(value: Option<Seq<char>>) -> int {
    if value is Some {
        1
    } else {
        0
    }
}

/// Nothing but the tags goes to FFmpeg as metadata: there are two words for each
/// tag that is set, and none else.
pub proof fn law_only_tags_are_set(tags: MetadataView)
    ensures
        metadata_args(tags).len() == 2 * (count(tags.title) + count(tags.artist) + count(tags.album)
            + count(tags.date) + count(tags.track) + count(tags.disc)),
{
}

/// Arguments without the metadata option, before and after those for the tags,
/// change nothing of what is set.
pub proof fn law_other_arguments_set_nothing(
    before: Seq<ArgView>,
    tags: MetadataView,
    after: Seq<ArgView>,
    key: Seq<char>,
    value: Seq<char>,
)
    requires
        without_tags(before),
        without_tags(after),
        key == "title"@ || key == "artist"@ || key == "album"@ || key == "date"@ || key
            == "track"@ || key == "disc"@,
    ensures
        sets(before + metadata_args(tags) + after, key, value) <==> sets(
            metadata_args(tags),
            key,
            value,
        ),
{
    lemma_tags_set(tags, key, value);
    lemma_sets_between(before, metadata_args(tags), after, key, value);
}

proof fn lemma_sets_between(
    before: Seq<ArgView>,
    args: Seq<ArgView>,
    after: Seq<ArgView>,
    key: Seq<char>,
    value: Seq<char>,
)
    requires
        without_tags(before),
        without_tags(after),
        paired(args),
    ensures
        sets(before + args + after, key, value) <==> sets(args, key, value),
{
    let whole = before + args + after;
    let n = before.len() as int;
    let word = ArgView::Text(key + seq!['='] + value);
    let option = ArgView::Text("-metadata"@);
    if sets(args, key, value) {
        let i = choose|i: int|
            0 <= i < args.len() - 1 && (#[trigger] args[i]) == option && args[i + 1] == word;
        assert(whole[i + n] == option && whole[i + n + 1] == word);
    }
    if sets(whole, key, value) {
        let i = choose|i: int|
            0 <= i < whole.len() - 1 && (#[trigger] whole[i]) == option && whole[i + 1] == word;
        if i < n {
            assert(before[i] == option);
        } else if i >= n + args.len() {
            assert(after[i - n - args.len()] == option);
        } else {
            assert(args[i - n] == option);
            assert((i - n) % 2 == 0);
            assert(args[i - n + 1] == word);
        }
    }
}

/// Each format has its codec: FLAC with samples of twenty-four bits, the same
/// samples uncompressed in a WAV, and MP3 with the bitrate that was chosen.
pub proof fn law_codec_of_each_format(label: Seq<char>)
    ensures
        ({
            let args = codec_args(Format::Flac, label);
            &&& args.len() == 8
            &&& followed(args, "-c:a"@, "flac"@)
            &&& followed(args, "-compression_level"@, "5"@)
            &&& followed(args, "-sample_fmt"@, "s32"@)
            &&& followed(args, "-bits_per_raw_sample"@, "24"@)
        }),
        ({
            let args = codec_args(Format::Wav, label);
            &&& args.len() == 2
            &&& followed(args, "-c:a"@, "pcm_s24le"@)
        }),
        ({
            let args = codec_args(Format::Mp3, label);
            &&& args.len() == 6
            &&& followed(args, "-c:a"@, "libmp3lame"@)
            &&& followed(args, "-b:a"@, label)
            &&& followed(args, "-id3v2_version"@, "3"@)
        }),
{
    let flac = codec_args(Format::Flac, label);
    assert(flac[0] == ArgView::Text("-c:a"@) && flac[1] == ArgView::Text("flac"@));
    assert(flac[2] == ArgView::Text("-compression_level"@) && flac[3] == ArgView::Text("5"@));
    assert(flac[4] == ArgView::Text("-sample_fmt"@) && flac[5] == ArgView::Text("s32"@));
    assert(flac[6] == ArgView::Text("-bits_per_raw_sample"@) && flac[7] == ArgView::Text("24"@));
    let wav = codec_args(Format::Wav, label);
    assert(wav[0] == ArgView::Text("-c:a"@) && wav[1] == ArgView::Text("pcm_s24le"@));
    let mp3 = codec_args(Format::Mp3, label);
    assert(mp3[0] == ArgView::Text("-c:a"@) && mp3[1] == ArgView::Text("libmp3lame"@));
    assert(mp3[2] == ArgView::Text("-b:a"@) && mp3[3] == ArgView::Text(label));
    assert(mp3[4] == ArgView::Text("-id3v2_version"@) && mp3[5] == ArgView::Text("3"@));
}

pub proof fn lemma_without_join(first: Seq<ArgView>, second: Seq<ArgView>)
    requires
        without_tags(first),
        without_tags(second),
    ensures
        without_tags(first + second),
{
    let whole = first + second;
    assert forall|i: int| 0 <= i < whole.len() implies (#[trigger] whole[i]) != ArgView::Text(
        "-metadata"@,
    ) by {
        if i < first.len() {
            assert(whole[i] == first[i]);
        } else {
            assert(whole[i] == second[i - first.len()]);
        }
    }
}

pub proof fn lemma_words_without(items: Seq<Seq<char>>)
    requires
        forall|i: int|
            0 <= i < items.len() ==> (#[trigger] items[i]).len() != 9 || items[i][1] != 'm',
    ensures
        without_tags(words(items)),
{
    reveal_strlit("-metadata");
    let args = words(items);
    assert forall|i: int| 0 <= i < args.len() implies (#[trigger] args[i]) != ArgView::Text(
        "-metadata"@,
    ) by {
        assert(args[i] == ArgView::Text(items[i]));
        assert("-metadata"@.len() == 9 && "-metadata"@[1] == 'm');
    }
}

/// The arguments for a cover set no tag of the file.
pub proof fn law_cover_sets_no_tag()
    ensures
        without_tags(cover_args()),
{
    reveal_strlit("-map");
    reveal_strlit("1:v:0");
    reveal_strlit("-c:v");
    reveal_strlit("copy");
    reveal_strlit("-disposition:v:0");
    reveal_strlit("attached_pic");
    reveal_strlit("-metadata:s:v:0");
    reveal_strlit("title=Album cover");
    reveal_strlit("comment=Cover (front)");
    let items = seq![
        "-map"@,
        "1:v:0"@,
        "-c:v"@,
        "copy"@,
        "-disposition:v:0"@,
        "attached_pic"@,
        "-metadata:s:v:0"@,
        "title=Album cover"@,
        "-metadata:s:v:0"@,
        "comment=Cover (front)"@,
    ];
    lemma_words_without(items);
}

pub proof fn lemma_followed_within(
    before: Seq<ArgView>,
    part: Seq<ArgView>,
    after: Seq<ArgView>,
    option: Seq<char>,
    value: Seq<char>,
)
    requires
        followed(part, option, value),
    ensures
        followed(before + part + after, option, value),
{
    let whole = before + part + after;
    let n = before.len() as int;
    let i = choose|i: int|
        0 <= i < part.len() - 1 && (#[trigger] part[i]) == ArgView::Text(option) && part[i + 1]
            == ArgView::Text(value);
    assert(whole[i + n] == ArgView::Text(option) && whole[i + n + 1] == ArgView::Text(value));
}

proof fn lemma_codec_sets_no_tag(format: Format, bitrate: Bitrate)
    ensures
        without_tags(codec_args(format, bitrate_label(bitrate))),
{
    reveal_strlit("-c:a");
    reveal_strlit("flac");
    reveal_strlit("-compression_level");
    reveal_strlit("5");
    reveal_strlit("-sample_fmt");
    reveal_strlit("s32");
    reveal_strlit("-bits_per_raw_sample");
    reveal_strlit("24");
    reveal_strlit("pcm_s24le");
    reveal_strlit("libmp3lame");
    reveal_strlit("-b:a");
    reveal_strlit("-id3v2_version");
    reveal_strlit("3");
    reveal_strlit("128k");
    reveal_strlit("192k");
    reveal_strlit("256k");
    reveal_strlit("320k");
    let label = bitrate_label(bitrate);
    match format {
        Format::Flac => {
            lemma_words_without(
                seq![
                    "-c:a"@,
                    "flac"@,
                    "-compression_level"@,
                    "5"@,
                    "-sample_fmt"@,
                    "s32"@,
                    "-bits_per_raw_sample"@,
                    "24"@,
                ],
            );
        },
        Format::Wav => {
            assert("pcm_s24le"@[1] == 'c');
            lemma_words_without(seq!["-c:a"@, "pcm_s24le"@]);
        },
        Format::Mp3 => {
            lemma_words_without(
                seq!["-c:a"@, "libmp3lame"@, "-b:a"@, label, "-id3v2_version"@, "3"@],
            );
        },
    }
}

/// The arguments that encode a file, cut where the tags are: what goes before them
/// and what comes after them sets no tag.
proof fn lemma_encoder_parts(config: EncoderConfig, partial: PathBuf) -> (parts: (
    Seq<ArgView>,
    Seq<ArgView>,
))
    ensures
        encoder_args(config, partial) == parts.0 + codec_args(
            config.format,
            bitrate_label(config.bitrate),
        ) + metadata_args(config.metadata@) + parts.1,
        without_tags(parts.0),
        without_tags(parts.1),
        parts.1 == words(seq!["-f"@, extension_of(config.format)]) + path(partial),
        opens_encoding(parts.0, config.artwork),
{
    reveal_strlit("-hide_banner");
    reveal_strlit("-loglevel");
    reveal_strlit("error");
    reveal_strlit("-nostats");
    reveal_strlit("-nostdin");
    reveal_strlit("-y");
    reveal_strlit("-f");
    reveal_strlit("f32le");
    reveal_strlit("-ar");
    reveal_strlit("44100");
    reveal_strlit("-ac");
    reveal_strlit("2");
    reveal_strlit("-i");
    reveal_strlit("pipe:0");
    reveal_strlit("-map");
    reveal_strlit("0:a:0");
    reveal_strlit("-map_metadata");
    reveal_strlit("-1");
    reveal_strlit("-map_chapters");
    reveal_strlit("flac");
    reveal_strlit("wav");
    reveal_strlit("mp3");
    assert("-loglevel"@[1] == 'l');
    let opening = seq![
        "-hide_banner"@,
        "-loglevel"@,
        "error"@,
        "-nostats"@,
        "-nostdin"@,
        "-y"@,
        "-f"@,
        "f32le"@,
        "-ar"@,
        "44100"@,
        "-ac"@,
        "2"@,
        "-i"@,
        "pipe:0"@,
    ];
    let second = match config.artwork {
        Some(artwork) => words(seq!["-i"@]) + path(artwork),
        None => Seq::empty(),
    };
    let maps = seq!["-map"@, "0:a:0"@, "-map_metadata"@, "-1"@, "-map_chapters"@, "-1"@];
    let cover = if config.artwork is Some {
        cover_args()
    } else {
        Seq::empty()
    };
    lemma_words_without(opening);
    lemma_words_without(seq!["-i"@]);
    lemma_words_without(maps);
    law_cover_sets_no_tag();
    assert(without_tags(second));
    assert(without_tags(cover));
    lemma_without_join(words(opening), second);
    lemma_without_join(words(opening) + second, words(maps));
    lemma_without_join(words(opening) + second + words(maps), cover);
    let closing = seq!["-f"@, extension_of(config.format)];
    lemma_words_without(closing);
    lemma_without_join(words(closing), path(partial));
    let before = words(opening) + second + words(maps) + cover;
    lemma_encoding_opens(before, config.artwork);
    let after = words(closing) + path(partial);
    assert(encoder_args(config, partial) =~= before + codec_args(
        config.format,
        bitrate_label(config.bitrate),
    ) + metadata_args(config.metadata@) + after);
    (before, after)
}

/// An encoded file gets each tag under its own key, and no other value for it.
pub proof fn law_encoding_sets_each_tag(
    config: EncoderConfig,
    partial: PathBuf,
    value: Seq<char>,
)
    ensures
        ({
            let args = encoder_args(config, partial);
            let tags = config.metadata@;
            &&& sets(args, "title"@, value) <==> tags.title == Some(value)
            &&& sets(args, "artist"@, value) <==> tags.artist == Some(value)
            &&& sets(args, "album"@, value) <==> tags.album == Some(value)
            &&& sets(args, "date"@, value) <==> tags.date == Some(value)
            &&& sets(args, "track"@, value) <==> tags.track == Some(value)
            &&& sets(args, "disc"@, value) <==> tags.disc == Some(value)
        }),
{
    let tags = config.metadata@;
    let (first, after) = lemma_encoder_parts(config, partial);
    let codec = codec_args(config.format, bitrate_label(config.bitrate));
    lemma_codec_sets_no_tag(config.format, config.bitrate);
    lemma_without_join(first, codec);
    let before = first + codec;
    law_each_tag_has_its_key(tags, value);
    law_other_arguments_set_nothing(before, tags, after, "title"@, value);
    law_other_arguments_set_nothing(before, tags, after, "artist"@, value);
    law_other_arguments_set_nothing(before, tags, after, "album"@, value);
    law_other_arguments_set_nothing(before, tags, after, "date"@, value);
    law_other_arguments_set_nothing(before, tags, after, "track"@, value);
    law_other_arguments_set_nothing(before, tags, after, "disc"@, value);
}

/// What is encoded comes from FFmpeg's standard input, as stereo samples of
/// thirty-two bits, and goes into the partial file, in the codec and the container
/// of the format; an MP3 has the bitrate that was chosen. A cover is the second
/// input and the front cover of the file; without one there is no second input.
pub proof fn law_encoding_goes_into_the_file(config: EncoderConfig, partial: PathBuf)
    ensures
        ({
            let args = encoder_args(config, partial);
            let n = args.len() as int;
            &&& args[6] == ArgView::Text("-f"@) && args[7] == ArgView::Text("f32le"@)
            &&& args[8] == ArgView::Text("-ar"@) && args[9] == ArgView::Text("44100"@)
            &&& args[10] == ArgView::Text("-ac"@) && args[11] == ArgView::Text("2"@)
            &&& args[12] == ArgView::Text("-i"@) && args[13] == ArgView::Text("pipe:0"@)
            &&& followed(args, "-map"@, "0:a:0"@)
            &&& followed(args, "-map_metadata"@, "-1"@)
            &&& followed(args, "-map_chapters"@, "-1"@)
            &&& args[n - 3] == ArgView::Text("-f"@)
            &&& args[n - 1] == ArgView::Path(partial)
            &&& config.format == Format::Flac ==> followed(args, "-c:a"@, "flac"@) && args[n - 2]
                == ArgView::Text("flac"@)
            &&& config.format == Format::Wav ==> followed(args, "-c:a"@, "pcm_s24le"@) && args[n
                - 2] == ArgView::Text("wav"@)
            &&& config.format == Format::Mp3 ==> followed(args, "-c:a"@, "libmp3lame"@) && followed(
                args,
                "-b:a"@,
                bitrate_label(config.bitrate),
            ) && args[n - 2] == ArgView::Text("mp3"@)
            &&& match config.artwork {
                Some(artwork) => {
                    &&& args[14] == ArgView::Text("-i"@)
                    &&& args[15] == ArgView::Path(artwork)
                    &&& followed(args, "-map"@, "1:v:0"@)
                    &&& followed(args, "-disposition:v:0"@, "attached_pic"@)
                },
                None => forall|i: int|
                    0 <= i < n - 1 ==> (#[trigger] args[i]) is Text,
            }
        }),
{
    let label = bitrate_label(config.bitrate);
    let codec = codec_args(config.format, label);
    let (before, after) = lemma_encoder_parts(config, partial);
    let tags = metadata_args(config.metadata@);
    lemma_encoding_around(config, partial, before, codec, tags, after);
    lemma_tags_are_words(config.metadata@);
    lemma_codec_is_words(config.format, label);
    lemma_encoding_keeps_opening(before, codec + tags, after, config.artwork);
    assert(before + (codec + tags) + after =~= before + codec + tags + after);
}

/// What the arguments that encode a file begin with.
spec fn opens_encoding(args: Seq<ArgView>, artwork: Option<PathBuf>) -> bool {
    &&& args.len() >= 20
    &&& args[6] == ArgView::Text("-f"@) && args[7] == ArgView::Text("f32le"@)
    &&& args[8] == ArgView::Text("-ar"@) && args[9] == ArgView::Text("44100"@)
    &&& args[10] == ArgView::Text("-ac"@) && args[11] == ArgView::Text("2"@)
    &&& args[12] == ArgView::Text("-i"@) && args[13] == ArgView::Text("pipe:0"@)
    &&& followed(args, "-map"@, "0:a:0"@)
    &&& followed(args, "-map_metadata"@, "-1"@)
    &&& followed(args, "-map_chapters"@, "-1"@)
    &&& match artwork {
        Some(artwork) => {
            &&& args[14] == ArgView::Text("-i"@)
            &&& args[15] == ArgView::Path(artwork)
            &&& followed(args, "-map"@, "1:v:0"@)
            &&& followed(args, "-disposition:v:0"@, "attached_pic"@)
        },
        None => all_words(args),
    }
}

/// No argument is a path.
pub open spec fn all_words(args: Seq<ArgView>) -> bool {
    forall|i: int| 0 <= i < args.len() ==> (#[trigger] args[i]) is Text
}

proof fn lemma_encoding_opens(args: Seq<ArgView>, artwork: Option<PathBuf>)
    requires
        args == words(
            seq![
                "-hide_banner"@,
                "-loglevel"@,
                "error"@,
                "-nostats"@,
                "-nostdin"@,
                "-y"@,
                "-f"@,
                "f32le"@,
                "-ar"@,
                "44100"@,
                "-ac"@,
                "2"@,
                "-i"@,
                "pipe:0"@,
            ],
        ) + (match artwork {
            Some(artwork) => words(seq!["-i"@]) + path(artwork),
            None => Seq::empty(),
        }) + words(seq!["-map"@, "0:a:0"@, "-map_metadata"@, "-1"@, "-map_chapters"@, "-1"@]) + (
        if artwork is Some {
            cover_args()
        } else {
            Seq::empty()
        }),
    ensures
        opens_encoding(args, artwork),
{
    let at: int = if artwork is Some {
        16
    } else {
        14
    };
    assert(args[at] == ArgView::Text("-map"@) && args[at + 1] == ArgView::Text("0:a:0"@));
    assert(args[at + 2] == ArgView::Text("-map_metadata"@) && args[at + 3] == ArgView::Text(
        "-1"@,
    ));
    assert(args[at + 4] == ArgView::Text("-map_chapters"@) && args[at + 5] == ArgView::Text(
        "-1"@,
    ));
    if artwork is Some {
        assert(args[22] == ArgView::Text("-map"@) && args[23] == ArgView::Text("1:v:0"@));
        assert(args[26] == ArgView::Text("-disposition:v:0"@) && args[27] == ArgView::Text(
            "attached_pic"@,
        ));
    }
}

proof fn lemma_encoding_keeps_opening(
    before: Seq<ArgView>,
    middle: Seq<ArgView>,
    after: Seq<ArgView>,
    artwork: Option<PathBuf>,
)
    requires
        opens_encoding(before, artwork),
        all_words(middle),
        after.len() == 3,
        after[0] is Text,
        after[1] is Text,
    ensures
        ({
            let args = before + middle + after;
            &&& args[6] == ArgView::Text("-f"@) && args[7] == ArgView::Text("f32le"@)
            &&& args[8] == ArgView::Text("-ar"@) && args[9] == ArgView::Text("44100"@)
            &&& args[10] == ArgView::Text("-ac"@) && args[11] == ArgView::Text("2"@)
            &&& args[12] == ArgView::Text("-i"@) && args[13] == ArgView::Text("pipe:0"@)
            &&& followed(args, "-map"@, "0:a:0"@)
            &&& followed(args, "-map_metadata"@, "-1"@)
            &&& followed(args, "-map_chapters"@, "-1"@)
            &&& match artwork {
                Some(artwork) => {
                    &&& args[14] == ArgView::Text("-i"@)
                    &&& args[15] == ArgView::Path(artwork)
                    &&& followed(args, "-map"@, "1:v:0"@)
                    &&& followed(args, "-disposition:v:0"@, "attached_pic"@)
                },
                None => forall|i: int| 0 <= i < args.len() - 1 ==> (#[trigger] args[i]) is Text,
            }
        }),
{
    let none = Seq::<ArgView>::empty();
    let rest = middle + after;
    let args = before + middle + after;
    assert(none + before + rest =~= args);
    lemma_followed_within(none, before, rest, "-map"@, "0:a:0"@);
    lemma_followed_within(none, before, rest, "-map_metadata"@, "-1"@);
    lemma_followed_within(none, before, rest, "-map_chapters"@, "-1"@);
    if artwork is Some {
        lemma_followed_within(none, before, rest, "-map"@, "1:v:0"@);
        lemma_followed_within(none, before, rest, "-disposition:v:0"@, "attached_pic"@);
    } else {
        assert forall|i: int| 0 <= i < args.len() - 1 implies (#[trigger] args[i]) is Text by {
            let n = before.len() as int;
            let m = middle.len() as int;
            if i < n {
                assert(args[i] == before[i]);
            } else if i < n + m {
                assert(args[i] == middle[i - n]);
            } else {
                assert(args[i] == after[i - n - m]);
            }
        }
    }
}

pub proof fn lemma_tags_are_words(tags: MetadataView)
    ensures
        all_words(metadata_args(tags)),
{
}

proof fn lemma_codec_is_words(format: Format, label: Seq<char>)
    ensures
        all_words(codec_args(format, label)),
{
}

proof fn lemma_encoding_around(
    config: EncoderConfig,
    partial: PathBuf,
    before: Seq<ArgView>,
    codec: Seq<ArgView>,
    tags: Seq<ArgView>,
    after: Seq<ArgView>,
)
    requires
        codec == codec_args(config.format, bitrate_label(config.bitrate)),
        after == words(seq!["-f"@, extension_of(config.format)]) + path(partial),
    ensures
        ({
            let args = before + codec + tags + after;
            let n = args.len() as int;
            &&& after.len() == 3 && after[0] is Text && after[1] is Text
            &&& args[n - 3] == ArgView::Text("-f"@)
            &&& args[n - 1] == ArgView::Path(partial)
            &&& config.format == Format::Flac ==> followed(args, "-c:a"@, "flac"@) && args[n - 2]
                == ArgView::Text("flac"@)
            &&& config.format == Format::Wav ==> followed(args, "-c:a"@, "pcm_s24le"@) && args[n
                - 2] == ArgView::Text("wav"@)
            &&& config.format == Format::Mp3 ==> followed(args, "-c:a"@, "libmp3lame"@) && followed(
                args,
                "-b:a"@,
                bitrate_label(config.bitrate),
            ) && args[n - 2] == ArgView::Text("mp3"@)
        }),
{
    let label = bitrate_label(config.bitrate);
    let rest = tags + after;
    let args = before + codec + tags + after;
    let n = args.len() as int;
    assert(before + codec + rest =~= args);
    law_codec_of_each_format(label);
    match config.format {
        Format::Flac => {
            lemma_followed_within(before, codec, rest, "-c:a"@, "flac"@);
        },
        Format::Wav => {
            lemma_followed_within(before, codec, rest, "-c:a"@, "pcm_s24le"@);
        },
        Format::Mp3 => {
            lemma_followed_within(before, codec, rest, "-c:a"@, "libmp3lame"@);
            lemma_followed_within(before, codec, rest, "-b:a"@, label);
        },
    }
    assert(after.len() == 3 && after[0] == ArgView::Text("-f"@) && after[1] == ArgView::Text(
        extension_of(config.format),
    ) && after[2] == ArgView::Path(partial));
    assert(args[n - 3] == after[0] && args[n - 2] == after[1] && args[n - 1] == after[2]);
}

// ---------------------------------------------------------------------------
// Laws of the words for formats and bitrates
// ---------------------------------------------------------------------------

/// A bitrate is labelled by its number and a `k`.
pub proof fn law_label_is_the_number(b: Bitrate)
    ensures
        bitrate_label(b) == text::decimal(kilobits(b) as nat).push('k'),
        kilobits(Bitrate::Kbps128) == 128,
        kilobits(Bitrate::Kbps192) == 192,
        kilobits(Bitrate::Kbps256) == 256,
        kilobits(Bitrate::Kbps320) == 320,
{
    reveal_strlit("128k");
    reveal_strlit("192k");
    reveal_strlit("256k");
    reveal_strlit("320k");
    reveal_with_fuel(text::decimal, 3);
    assert(bitrate_label(b) =~= text::decimal(kilobits(b) as nat).push('k'));
}

/// Only letters out of `kbps` may follow the number in a word for a bitrate.
pub open spec fn unit_letters(s: Seq<char>) -> bool {
    forall|i: int|
        0 <= i < s.len() ==> (#[trigger] s[i] == 'k' || s[i] == 'b' || s[i] == 'p' || s[i] == 's')
}

/// A word names a bitrate only if it starts with its number, and nothing but
/// letters of the unit follows.
pub proof fn law_bitrate_words_start_with_the_number(word: Seq<char>)
    ensures
        bitrate_named(word) matches Some(b) ==> {
            let digits = text::decimal(kilobits(b) as nat);
            &&& digits.is_prefix_of(word)
            &&& unit_letters(word.skip(digits.len() as int))
        },
{
    if let Some(b) = bitrate_named(word) {
        reveal_strlit("128");
        reveal_strlit("192");
        reveal_strlit("256");
        reveal_strlit("320");
        reveal_with_fuel(text::decimal, 3);
        let digits = text::decimal(kilobits(b) as nat);
        let fewer = text::trim_end(text::Charset::One('k'), word);
        lemma_without_k(word);
        lemma_without_units(fewer);
        let rest = text::trim_suffixes(fewer, "kbps"@);
        assert(rest =~= digits);
        let n = digits.len() as int;
        assert(word.skip(n) =~= fewer.skip(n) + word.skip(fewer.len() as int));
    }
}

proof fn lemma_without_k(word: Seq<char>)
    ensures
        text::trim_end(text::Charset::One('k'), word).is_prefix_of(word),
        unit_letters(word.skip(text::trim_end(text::Charset::One('k'), word).len() as int)),
    decreases word.len(),
{
    let set = text::Charset::One('k');
    let rest = text::trim_end(set, word);
    if word.len() > 0 && text::member(set, word.last()) {
        lemma_without_k(word.drop_last());
        assert(word.skip(rest.len() as int) =~= word.drop_last().skip(rest.len() as int).push(
            word.last(),
        ));
    }
}

proof fn lemma_without_units(word: Seq<char>)
    ensures
        text::trim_suffixes(word, "kbps"@).is_prefix_of(word),
        unit_letters(word.skip(text::trim_suffixes(word, "kbps"@).len() as int)),
    decreases word.len(),
{
    reveal_strlit("kbps");
    let unit = "kbps"@;
    let rest = text::trim_suffixes(word, unit);
    if unit.is_suffix_of(word) {
        let front = word.take(word.len() - unit.len());
        lemma_without_units(front);
        assert(word.skip(rest.len() as int) =~= front.skip(rest.len() as int) + unit);
        assert(word =~= front + unit);
        assert(rest.is_prefix_of(word)) by {
            assert(word.take(rest.len() as int) =~= front.take(rest.len() as int));
        }
    }
}

/// A bitrate may be given with or without its unit.
pub proof fn law_bitrate_with_unit(b: Bitrate)
    ensures
        bitrate_named(text::decimal(kilobits(b) as nat) + "k"@) == Some(b),
        bitrate_named(text::decimal(kilobits(b) as nat) + "kbps"@) == Some(b),
{
    reveal_strlit("k");
    reveal_strlit("kbps");
    reveal_strlit("128");
    reveal_strlit("192");
    reveal_strlit("256");
    reveal_strlit("320");
    reveal_with_fuel(text::decimal, 3);
    let digits = text::decimal(kilobits(b) as nat);
    law_bitrate_reads_back(b);
    law_label_is_the_number(b);
    assert(digits + "k"@ =~= digits.push('k'));
    let whole = digits + "kbps"@;
    let set = text::Charset::One('k');
    assert(whole.last() == 's');
    assert(text::trim_end(set, whole) == whole);
    assert("kbps"@.is_suffix_of(whole)) by {
        assert(whole.subrange(whole.len() - 4, whole.len() as int) =~= "kbps"@);
    }
    assert(whole.take(whole.len() - 4) =~= digits);
    assert(!"kbps"@.is_suffix_of(digits)) by {
        assert(digits.len() == 3);
    }
    assert(text::trim_suffixes(digits, "kbps"@) == digits);
    assert(text::trim_suffixes(whole, "kbps"@) == digits);
    assert(text::trim_end(set, digits) == digits);
}

/// A format is named by its extension, each letter a capital or not, and by
/// nothing else.
pub proof fn law_format_words(word: Seq<char>)
    ensures
        format_named(word) == Some(Format::Flac) <==> word.len() == 4 && (word[0] == 'f' || word[0]
            == 'F') && (word[1] == 'l' || word[1] == 'L') && (word[2] == 'a' || word[2] == 'A') && (
        word[3] == 'c' || word[3] == 'C'),
        format_named(word) == Some(Format::Wav) <==> word.len() == 3 && (word[0] == 'w' || word[0]
            == 'W') && (word[1] == 'a' || word[1] == 'A') && (word[2] == 'v' || word[2] == 'V'),
        format_named(word) == Some(Format::Mp3) <==> word.len() == 3 && (word[0] == 'm' || word[0]
            == 'M') && (word[1] == 'p' || word[1] == 'P') && word[2] == '3',
{
    reveal_strlit("flac");
    reveal_strlit("wav");
    reveal_strlit("mp3");
    let small = text::lowered(word);
    assert(small.len() == word.len());
    assert(forall|i: int| 0 <= i < word.len() ==> #[trigger] small[i] == text::lower(word[i]));
    if word.len() == 4 {
        assert(small =~= "flac"@ <==> small[0] == 'f' && small[1] == 'l' && small[2] == 'a'
            && small[3] == 'c');
    }
    if word.len() == 3 {
        assert(small =~= "wav"@ <==> small[0] == 'w' && small[1] == 'a' && small[2] == 'v');
        assert(small =~= "mp3"@ <==> small[0] == 'm' && small[1] == 'p' && small[2] == '3');
    }
    assert("flac"@.len() == 4 && "wav"@.len() == 3 && "mp3"@.len() == 3);
    assert("wav"@[0] == 'w' && "mp3"@[0] == 'm');
}

// ---------------------------------------------------------------------------
// Laws of the samples
// ---------------------------------------------------------------------------

/// FFmpeg is sent four bytes for each sample, in the order of the samples, and the
/// four bytes are the sample in little-endian order.
pub proof fn law_samples_are_sent(samples: Seq<u32>)
    ensures
        pcm(samples).len() == 4 * samples.len(),
        forall|i: int|
            0 <= i < samples.len() ==> #[trigger] samples[i] == pcm(samples)[4 * i] + pcm(
                samples,
            )[4 * i + 1] * 0x100 + pcm(samples)[4 * i + 2] * 0x1_0000 + pcm(samples)[4 * i + 3]
                * 0x100_0000,
    decreases samples.len(),
{
    if samples.len() > 0 {
        let front = samples.drop_last();
        let last = samples.last();
        law_samples_are_sent(front);
        let bytes = pcm(samples);
        let n = front.len() as int;
        assert forall|i: int| 0 <= i < samples.len() implies #[trigger] samples[i] == bytes[4 * i]
            + bytes[4 * i + 1] * 0x100 + bytes[4 * i + 2] * 0x1_0000 + bytes[4 * i + 3]
            * 0x100_0000 by {
            if i < n {
                assert(samples[i] == front[i]);
                assert(bytes[4 * i] == pcm(front)[4 * i]);
                assert(bytes[4 * i + 1] == pcm(front)[4 * i + 1]);
                assert(bytes[4 * i + 2] == pcm(front)[4 * i + 2]);
                assert(bytes[4 * i + 3] == pcm(front)[4 * i + 3]);
            } else {
                let four = little_endian(last);
                assert(bytes[4 * i] == four[0]);
                assert(bytes[4 * i + 1] == four[1]);
                assert(bytes[4 * i + 2] == four[2]);
                assert(bytes[4 * i + 3] == four[3]);
                assert(last as int == last as int % 256 + (last as int / 0x100 % 256) * 0x100 + (
                last as int / 0x1_0000 % 256) * 0x1_0000 + (last as int / 0x100_0000) * 0x100_0000);
            }
        }
    }
}

/// An encoding begins unless a file has the name of the output, or there is a
/// cover that a WAV cannot take or that is no file.
pub proof fn law_when_an_encoding_begins(
    config: EncoderConfig,
    output_exists: bool,
    artwork_is_file: bool,
)
    ensures
        ({
            let refused = start_refused(config, output_exists, artwork_is_file);
            &&& refused is None <==> !output_exists && (config.artwork is None || (config.format
                != Format::Wav && artwork_is_file))
            &&& output_exists <==> refused == Some(EncoderError::OutputExists)
            &&& refused == Some(EncoderError::ArtworkUnsupported) <==> !output_exists
                && config.artwork is Some && config.format == Format::Wav
        }),
{
}

/// Samples are taken until a write has failed, as long as they can be counted in
/// sixty-four bits, and every sample that was taken is counted.
pub proof fn law_when_samples_are_taken(encoder: EncoderView, count: nat)
    ensures
        ({
            let (result, after) = encoder.written(count, Written::Accepted);
            &&& result is Ok <==> !encoder.failed && encoder.samples + count
                <= 18_446_744_073_709_551_615
            &&& result is Ok ==> after.samples == encoder.samples + count && !after.failed
            &&& result is Err ==> after == encoder
            &&& encoder.failed ==> result == Err::<(), EncoderError>(
                EncoderError::WriteAfterFailure,
            )
        }),
        ({
            let (result, after) = encoder.written(count, Written::Refused);
            &&& result is Err
            &&& after.samples == encoder.samples
            &&& encoder.samples + count <= 18_446_744_073_709_551_615 ==> after.failed
        }),
        ({
            let (result, after) = encoder.written(count, Written::Closed);
            &&& result is Err
            &&& after == encoder
        }),
{
}

/// An encoding is finished only if no write has failed and there are whole stereo
/// frames, at least one: a number of samples that is even and not zero.
pub proof fn law_when_an_encoding_is_finished(encoder: EncoderView)
    ensures
        encoder.finish_refused() is None <==> !encoder.failed && encoder.samples > 0
            && encoder.samples % 2 == 0,
        encoder.finish_refused() == Some(EncoderError::FinishAfterFailure) <==> encoder.failed,
        encoder.finish_refused() == Some(EncoderError::NoAudio) <==> !encoder.failed
            && encoder.samples == 0,
        encoder.finish_refused() == Some(EncoderError::IncompleteFrame) <==> !encoder.failed
            && encoder.samples % 2 == 1,
{
}

/// What is kept of a stream is its end: as many of its last bytes as there may be,
/// or all of it.
pub proof fn law_last_bytes_are_the_end(bytes: Seq<u8>, n: nat)
    ensures
        last_bytes(bytes, n).is_suffix_of(bytes),
        last_bytes(bytes, n).len() == if bytes.len() <= n {
            bytes.len()
        } else {
            n
        },
{
    assert(bytes.subrange(bytes.len() - last_bytes(bytes, n).len(), bytes.len() as int)
        =~= last_bytes(bytes, n));
}

// ---------------------------------------------------------------------------
// Laws of the start and the end of an encoding
// ---------------------------------------------------------------------------

/// What keeps an encoding from starting.
pub open spec fn start_fatal(start: Start, event: StartEvent) -> bool {
    match start.step {
        StartStep::FindName | StartStep::FindPipe => event == StartEvent::Answer(false),
        StartStep::CreateFolder | StartStep::StartFfmpeg | StartStep::StartReader => event is Failed,
        StartStep::CreatePartial => event is Failed || (event is Taken && start.attempts >= 127),
        _ => false,
    }
}

/// An encoding fails to start exactly for one of these causes, with the error that
/// tells it. A name that is taken is passed over, up to a hundred and
/// twenty-eight times.
pub proof fn law_start_fails_for_a_cause(start: Start, event: StartEvent)
    requires
        start_fits(start.step, event),
    ensures
        !start_fatal(start, event) ==> start.after(event).error == start.error,
        start_fatal(start, event) ==> start.after(event).error is Some,
        start.step == StartStep::CreatePartial && event is Taken && start.attempts < 127
            ==> start.after(event).step == StartStep::CreatePartial && start.after(event).attempts
            == start.attempts + 1,
        start.step == StartStep::CreatePartial && event is Taken && start.attempts >= 127
            ==> start.after(event).error == Some(EncoderError::NoPartial),
{
}

/// What keeps an encoded file from being published.
pub open spec fn finish_fatal(finish: Finish, event: FinishEvent) -> bool {
    match finish.step {
        FinishStep::Wait
        | FinishStep::OpenPartial
        | FinishStep::SyncPartial
        | FinishStep::Publish => event is Failed,
        FinishStep::ReadDiagnostics => event is Failed || event is Panicked || (
        finish.exit matches Some(exit) && !exit.0),
        FinishStep::MeasurePartial => event is Failed || event == FinishEvent::Size(0),
        _ => false,
    }
}

/// A file is given up exactly for one of these causes. What comes of clearing up
/// is none.
pub proof fn law_finish_fails_for_a_cause(finish: Finish, event: FinishEvent)
    requires
        finish_fits(finish.step, event),
    ensures
        !finish_fatal(finish, event) ==> finish.after(event).error == finish.error,
        finish_fatal(finish, event) ==> finish.after(event).error is Some,
        finish.step == FinishStep::Wait && event is Exit ==> finish.after(event).exit is Some
            && event == FinishEvent::Exit(
            exit_succeeded(finish.after(event)),
            exit_status(finish.after(event)),
        ),
        finish.step != FinishStep::Wait ==> finish.after(event).exit == finish.exit,
{
}

/// Whether FFmpeg ended well, as far as it is known.
pub open spec fn exit_succeeded(finish: Finish) -> bool
    recommends
        finish.exit is Some,
{
    let (success, status) = finish.exit->0;
    success
}

/// The status with which FFmpeg ended.
pub open spec fn exit_status(finish: Finish) -> String
    recommends
        finish.exit is Some,
{
    let (success, status) = finish.exit->0;
    status
}

/// A file of which nothing fatal comes is published: the end of the encoding has
/// no error.
pub proof fn law_finish_without_failure_succeeds(start: Finish, events: Seq<FinishEvent>)
    requires
        at_end(start),
        finish_possible(start, events),
        forall|i: int|
            0 <= i < events.len() ==> !finish_fatal(
                finish_run(start, #[trigger] events.take(i)),
                events[i],
            ),
    ensures
        finish_run(start, events).error is None,
    decreases events.len(),
{
    if events.len() > 0 {
        let front = events.drop_last();
        assert forall|i: int| 0 <= i < front.len() implies !finish_fatal(
            finish_run(start, #[trigger] front.take(i)),
            front[i],
        ) by {
            assert(front.take(i) =~= events.take(i));
        }
        law_finish_without_failure_succeeds(start, front);
        assert(events.take(front.len() as int) =~= front);
        law_finish_fails_for_a_cause(finish_run(start, front), events.last());
    }
}

/// A partial file is hidden, and is recognised by both ends of its name: a full
/// stop and the name of the output in front, and the word for it at the end.
pub proof fn law_partial_files_are_hidden(name: Seq<u8>, process: nat, stamp: nat, sequence: nat)
    ensures
        ({
            let file = partial_file(name, process, stamp, sequence);
            &&& file.len() > name.len() + 9
            &&& file[0] == '.' as u8
            &&& file.subrange(1, 1 + name.len() as int) == name
            &&& file[1 + name.len() as int] == '.' as u8
            &&& file.skip(file.len() - 8) == seq![
                '.' as u8,
                'p' as u8,
                'a' as u8,
                'r' as u8,
                't' as u8,
                'i' as u8,
                'a' as u8,
                'l' as u8,
            ]
        }),
{
    reveal_strlit(".");
    reveal_strlit(".partial");
    let suffix = partial_suffix(process, stamp, sequence);
    let file = partial_file(name, process, stamp, sequence);
    let p = text::decimal(process);
    let t = text::decimal(stamp);
    let q = text::decimal(sequence);
    text::lemma_decimal_digits(process);
    text::lemma_decimal_digits(stamp);
    text::lemma_decimal_digits(sequence);
    assert(vstd::utf8::is_ascii_chars("."@));
    vstd::utf8::is_ascii_chars_encode_utf8("."@);
    assert forall|i: int| 0 <= i < suffix.len() implies '\0' <= #[trigger] suffix[i] <= '\u{7f}' by {
        let a = p.len() as int;
        let b = t.len() as int;
        let c = q.len() as int;
        if 1 <= i < 1 + a {
            assert(suffix[i] == p[i - 1]);
            assert(text::is_digit(p[i - 1]));
        } else if 2 + a <= i < 2 + a + b {
            assert(suffix[i] == t[i - 2 - a]);
            assert(text::is_digit(t[i - 2 - a]));
        } else if 3 + a + b <= i < 3 + a + b + c {
            assert(suffix[i] == q[i - 3 - a - b]);
            assert(text::is_digit(q[i - 3 - a - b]));
        } else if i >= 3 + a + b + c {
            assert(suffix[i] == ".partial"@[i - 3 - a - b - c]);
        }
    }
    assert(vstd::utf8::is_ascii_chars(suffix));
    vstd::utf8::is_ascii_chars_encode_utf8(suffix);
    let bytes = vstd::utf8::encode_utf8(suffix);
    let n = suffix.len() as int;
    assert(suffix[0] == '.');
    assert(bytes[0] == suffix[0] as u8);
    assert forall|k: int| 0 <= k < 8 implies #[trigger] bytes[n - 8 + k] == ".partial"@[k] as u8 by {
        assert(suffix[n - 8 + k] == ".partial"@[k]);
    }
    assert(file.subrange(1, 1 + name.len() as int) =~= name);
    assert(file.skip(file.len() - 8) =~= seq![
        '.' as u8,
        'p' as u8,
        'a' as u8,
        'r' as u8,
        't' as u8,
        'i' as u8,
        'a' as u8,
        'l' as u8,
    ]) by {
        let end = file.skip(file.len() - 8);
        assert(end[0] == bytes[n - 8 + 0]);
        assert(end[1] == bytes[n - 8 + 1]);
        assert(end[2] == bytes[n - 8 + 2]);
        assert(end[3] == bytes[n - 8 + 3]);
        assert(end[4] == bytes[n - 8 + 4]);
        assert(end[5] == bytes[n - 8 + 5]);
        assert(end[6] == bytes[n - 8 + 6]);
        assert(end[7] == bytes[n - 8 + 7]);
    }
}

/// Each step of a start follows the one that it needs, once that was done: the name
/// is known before the folder is created, the folder there before a partial file is
/// reserved in it, the file reserved before FFmpeg is started, and FFmpeg's words are
/// read before the encoding runs.
pub proof fn law_start_in_order(start: Start, event: StartEvent)
    requires
        start_fits(start.step, event),
    ensures
        ({
            let step = start.after(event).step;
            &&& step == StartStep::CreateFolder ==> start.step == StartStep::FindName && event
                == StartEvent::Answer(true)
            &&& step == StartStep::CreatePartial ==> (start.step == StartStep::CreateFolder
                && event is Done) || (start.step == StartStep::CreatePartial && event is Taken)
            &&& step == StartStep::StartFfmpeg ==> start.step == StartStep::CreatePartial
                && event is Done
            &&& step == StartStep::FindPipe ==> start.step == StartStep::StartFfmpeg
                && event is Done
            &&& step == StartStep::StartReader ==> start.step == StartStep::FindPipe && event
                == StartEvent::Answer(true)
            &&& step == StartStep::Running ==> start.step == StartStep::StartReader && event is Done
            &&& step != StartStep::FindName
        }),
{
}

/// Each failure of a start is told as what it is.
pub proof fn law_each_start_failure_has_its_error(start: Start, what: String, cause: String)
    ensures
        ({
            let next = start.after(StartEvent::Failed(what, cause));
            &&& start.step == StartStep::CreateFolder ==> next.error == Some(
                EncoderError::Folder(what, cause),
            )
            &&& start.step == StartStep::CreatePartial ==> next.error == Some(
                EncoderError::Partial(what, cause),
            )
            &&& start.step == StartStep::StartFfmpeg ==> next.error == Some(
                EncoderError::NotStarted(what, cause),
            )
            &&& start.step == StartStep::StartReader ==> next.error == Some(
                EncoderError::NoReader(cause),
            )
        }),
        start.step == StartStep::FindName ==> start.after(StartEvent::Answer(false)).error == Some(
            EncoderError::NoName,
        ),
        start.step == StartStep::FindPipe ==> start.after(StartEvent::Answer(false)).error == Some(
            EncoderError::NoPipe,
        ),
{
}

/// A file is published only after FFmpeg ended, its words were read, and the file
/// was opened, found to hold something and synced, each directly after the one
/// before.
pub proof fn law_finish_in_order(finish: Finish, event: FinishEvent)
    requires
        finish_fits(finish.step, event),
    ensures
        ({
            let step = finish.after(event).step;
            &&& step == FinishStep::ReadDiagnostics ==> finish.step == FinishStep::Wait
                && event is Exit
            &&& step == FinishStep::OpenPartial ==> finish.step == FinishStep::ReadDiagnostics
                && event is Said
            &&& step == FinishStep::MeasurePartial ==> finish.step == FinishStep::OpenPartial
                && event is Done
            &&& step == FinishStep::SyncPartial ==> finish.step == FinishStep::MeasurePartial
                && event is Size && event != FinishEvent::Size(0)
            &&& step == FinishStep::Publish ==> finish.step == FinishStep::SyncPartial
                && event is Done
            &&& step == FinishStep::RemovePartial ==> finish.step == FinishStep::Publish
                && event is Done
            &&& step == FinishStep::SyncFolder ==> finish.step == FinishStep::RemovePartial
            &&& step != FinishStep::Wait
        }),
{
}

/// Each failure to publish a file is told as what it is; where FFmpeg failed, with its
/// status and the last that it said.
pub proof fn law_each_finish_failure_has_its_error(finish: Finish, cause: String, last: Vec<u8>)
    ensures
        ({
            let next = finish.after(FinishEvent::Failed(cause));
            &&& finish.step == FinishStep::Wait ==> next.error == Some(
                EncoderError::Unwaited(cause),
            )
            &&& finish.step == FinishStep::ReadDiagnostics ==> next.error == Some(
                EncoderError::Unread(cause),
            )
            &&& finish.step == FinishStep::OpenPartial ==> next.error == Some(
                EncoderError::NoFile(cause),
            )
            &&& finish.step == FinishStep::MeasurePartial ==> next.error == Some(
                EncoderError::Unmeasured(cause),
            )
            &&& finish.step == FinishStep::SyncPartial ==> next.error == Some(
                EncoderError::Unsynced(cause),
            )
            &&& finish.step == FinishStep::Publish ==> next.error == Some(
                EncoderError::Unpublished(cause),
            )
        }),
        finish.step == FinishStep::ReadDiagnostics ==> finish.after(FinishEvent::Panicked).error
            == Some(EncoderError::ReaderPanicked),
        finish.step == FinishStep::MeasurePartial ==> finish.after(FinishEvent::Size(0)).error
            == Some(EncoderError::EmptyFile),
        finish.step == FinishStep::ReadDiagnostics && finish.exit is Some && !exit_succeeded(finish)
            ==> finish.after(FinishEvent::Said(last)).error == Some(
            EncoderError::Ffmpeg(exit_status(finish), last),
        ),
{
}

/// Whatever fails, the user is told why: the words of an error end with the cause,
/// and name the folder, the file or the program that it is about.
pub proof fn law_error_words_tell_the_cause(
    what: String,
    cause: String,
    output: Seq<char>,
    artwork: Seq<char>,
)
    ensures
        cause@.is_suffix_of(error_words(EncoderError::Folder(what, cause), output, artwork)),
        cause@.is_suffix_of(error_words(EncoderError::Partial(what, cause), output, artwork)),
        cause@.is_suffix_of(error_words(EncoderError::NotStarted(what, cause), output, artwork)),
        cause@.is_suffix_of(error_words(EncoderError::NoReader(cause), output, artwork)),
        cause@.is_suffix_of(error_words(EncoderError::Unwaited(cause), output, artwork)),
        cause@.is_suffix_of(error_words(EncoderError::Unread(cause), output, artwork)),
        cause@.is_suffix_of(error_words(EncoderError::NoFile(cause), output, artwork)),
        cause@.is_suffix_of(error_words(EncoderError::Unmeasured(cause), output, artwork)),
        cause@.is_suffix_of(error_words(EncoderError::Unsynced(cause), output, artwork)),
        cause@.is_suffix_of(error_words(EncoderError::Unpublished(cause), output, artwork)),
        output.is_suffix_of(error_words(EncoderError::OutputExists, output, artwork)),
        artwork.is_suffix_of(error_words(EncoderError::ArtworkUnreadable, output, artwork)),
        text::occurs(error_words(EncoderError::Folder(what, cause), output, artwork), what@),
        text::occurs(error_words(EncoderError::Partial(what, cause), output, artwork), what@),
        text::occurs(error_words(EncoderError::NotStarted(what, cause), output, artwork), what@),
        text::occurs(error_words(EncoderError::Unpublished(cause), output, artwork), output),
{
    let links =
        " without overwriting an existing file; the output filesystem must support hard links: "@;
    lemma_words_around("cannot create output directory "@, what@, ": "@, cause@);
    lemma_words_around("cannot create partial file "@, what@, ": "@, cause@);
    lemma_words_around(
        "cannot start "@,
        what@,
        "; install FFmpeg or set its executable path: "@,
        cause@,
    );
    lemma_words_around("cannot publish "@, output, links, cause@);
    lemma_words_before("cannot start FFmpeg stderr reader: "@, cause@);
    lemma_words_before("cannot wait for FFmpeg: "@, cause@);
    lemma_words_before("cannot read FFmpeg diagnostics: "@, cause@);
    lemma_words_before("FFmpeg did not produce its temporary output: "@, cause@);
    lemma_words_before(Seq::empty(), cause@);
    assert(Seq::<char>::empty() + cause@ =~= cause@);
    lemma_words_before("cannot sync encoded audio: "@, cause@);
    lemma_words_before("output already exists: "@, output);
    lemma_words_before("artwork is not a readable file: "@, artwork);
}

proof fn lemma_words_before(front: Seq<char>, end: Seq<char>)
    ensures
        end.is_suffix_of(front + end),
{
    let whole = front + end;
    assert(whole.subrange(whole.len() - end.len(), whole.len() as int) =~= end);
}

proof fn lemma_words_around(front: Seq<char>, what: Seq<char>, middle: Seq<char>, end: Seq<char>)
    ensures
        end.is_suffix_of(front + what + middle + end),
        text::occurs(front + what + middle + end, what),
{
    let whole = front + what + middle + end;
    lemma_words_before(front + what + middle, end);
    let i = front.len() as int;
    assert(whole.subrange(i, i + what.len()) =~= what);
}

} // verus!
