use spotcapture::capture::{
    build_display_name, default_output_dir, duration_display, embed_metadata, embed_outcome, load_metadata, mpris_metadata_fallback,
    needs_metadata_embed, output_name, tagged_extension, EmbedOutcome, Event, Session, SessionError, Step,
};
use spotcapture::json::parse_text;
use spotcapture::metadata::{fetch, Artwork, TrackInfo};
use spotcapture::output::{Arg, Bitrate, Format, Metadata};
use spotcapture::spotify_dbus::{DbusError, MprisMetadata};
use std::path::PathBuf;

#[test]
fn display_name_with_artist_and_title() {
    let tags = Metadata {
        title: Some("Khola Haowa".into()),
        artist: Some("Nachiketa".into()),
        ..Default::default()
    };
    assert_eq!(build_display_name(&tags, "abc123"), "Khola Haowa - Nachiketa");
}

#[test]
fn display_name_without_artist() {
    let tags = Metadata {
        title: Some("Khola Haowa".into()),
        ..Default::default()
    };
    assert_eq!(build_display_name(&tags, "abc123"), "Khola Haowa");
}

#[test]
fn display_name_fallback_to_id() {
    let tags = Metadata::default();
    assert_eq!(build_display_name(&tags, "abc123"), "abc123");
}

fn desktop(title: &str, artist: &str, album: &str) -> MprisMetadata {
    MprisMetadata {
        track_id: "/com/spotify/track/5erh9j6o7dOzSDxLnBirqK".into(),
        title: title.into(),
        artist: artist.into(),
        album: album.into(),
        art_url: String::new(),
        duration_us: 227_841_999,
    }
}

#[test]
fn desktop_metadata_fills_what_it_knows() {
    let info = mpris_metadata_fallback("abc123", Ok(desktop("Song", "", "Album")));
    assert_eq!(info.tags.title.as_deref(), Some("Song"));
    assert_eq!(info.tags.artist, None);
    assert_eq!(info.tags.album.as_deref(), Some("Album"));
    assert_eq!(info.tags.date, None);
    assert_eq!(info.duration_ms, Some(227_841));
    assert!(info.artwork.is_none());

    let info = mpris_metadata_fallback("abc123", Ok(desktop("", "Singer", "")));
    assert_eq!(info.tags.title.as_deref(), Some("abc123"));
    assert_eq!(info.tags.artist.as_deref(), Some("Singer"));

    let info = mpris_metadata_fallback("abc123", Err(DbusError::NoTrackId));
    assert_eq!(info.tags.title.as_deref(), Some("abc123"));
    assert_eq!(info.duration_ms, None);
}

#[test]
fn web_metadata_is_used_only_with_a_title() {
    assert!(load_metadata(None).is_none());
    let data = parse_text(r#"{"name":"Web title"}"#).unwrap();
    let web = load_metadata(Some(fetch("abc", &data).info)).unwrap();
    assert_eq!(web.tags.title.as_deref(), Some("Web title"));
    let mut untitled = TrackInfo::fallback("abc");
    untitled.tags.title = None;
    assert!(load_metadata(Some(untitled)).is_none());
}

#[test]
fn desktop_data_are_used_where_the_web_request_failed() {
    assert!(load_metadata(None).is_none());
    let info = mpris_metadata_fallback("abc", Ok(desktop("Song", "Singer", "Album")));
    assert_eq!(info.tags.title.as_deref(), Some("Song"));
    assert_eq!(info.tags.artist.as_deref(), Some("Singer"));
    assert_eq!(build_display_name(&info.tags, "abc"), "Song - Singer");
}

#[test]
fn every_known_track_has_something_to_embed() {
    assert!(needs_metadata_embed(&TrackInfo::fallback("abc")));
    assert!(needs_metadata_embed(&mpris_metadata_fallback("abc", Ok(desktop("", "", "")))));
    let mut bare = TrackInfo::fallback("abc");
    bare.tags.title = None;
    assert!(!needs_metadata_embed(&bare));
    bare.artwork = Some(Artwork(PathBuf::from("cover.jpg")));
    assert!(needs_metadata_embed(&bare));
}

#[test]
fn recordings_go_to_the_music_folder() {
    assert_eq!(default_output_dir(Some("/home/me".into())), ["/home/me", "Music", "SpotCapture"]);
    assert_eq!(default_output_dir(None), [".", "Music", "SpotCapture"]);
}

#[test]
fn recordings_are_named_after_the_track() {
    assert_eq!(output_name("A/B: C", Format::Flac), "A_B_ C.flac");
    assert_eq!(output_name("...", Format::Mp3), "Track.mp3");
    assert_eq!(tagged_extension(Format::Wav), "tmp.wav");
    let long = output_name(&"🎵".repeat(100), Format::Flac);
    assert_eq!(long, "🎵".repeat(25) + ".flac");
    assert!(long.len() <= 255);
}

fn shown(args: Vec<Arg>) -> Vec<String> {
    args.into_iter()
        .map(|arg| match arg {
            Arg::Text(text) => text,
            Arg::Path(path) => format!("<{}>", path.display()),
        })
        .collect()
}

#[test]
fn tags_and_cover_are_embedded_without_encoding_again() {
    let input = PathBuf::from("song.mp3");
    let temp = PathBuf::from("song.tmp.mp3");
    let mut info = TrackInfo::fallback("Song");
    info.tags.artist = Some("Singer".into());
    info.artwork = Some(Artwork(PathBuf::from("cover.jpg")));
    assert_eq!(
        shown(embed_metadata(&input, &info, Format::Mp3, &temp)),
        [
            "-hide_banner", "-loglevel", "error", "-nostdin", "-y", "-i", "<song.mp3>", "-i",
            "<cover.jpg>", "-map", "0:a:0", "-map", "1:v:0", "-c:v", "copy", "-disposition:v:0",
            "attached_pic", "-metadata:s:v:0", "title=Album cover", "-metadata:s:v:0",
            "comment=Cover (front)", "-c:a", "copy", "-metadata", "title=Song", "-metadata",
            "artist=Singer", "<song.tmp.mp3>",
        ]
    );
    assert_eq!(
        shown(embed_metadata(&input, &info, Format::Wav, &temp)),
        [
            "-hide_banner", "-loglevel", "error", "-nostdin", "-y", "-i", "<song.mp3>", "-map",
            "0:a:0", "-c:a", "copy", "-metadata", "title=Song", "-metadata", "artist=Singer",
            "<song.tmp.mp3>",
        ]
    );
}

#[test]
fn a_recording_that_is_not_tagged_brings_a_warning() {
    assert!(matches!(embed_outcome(true, b"ignored"), EmbedOutcome::Replace));
    match embed_outcome(false, b" odd file\n") {
        EmbedOutcome::Keep(words) => assert_eq!(words, "Metadata embedding warning: odd file"),
        other => panic!("{other:?}"),
    }
}

#[test]
fn durations_are_shown_in_minutes_and_seconds() {
    assert_eq!(duration_display(227_841), "3:47");
    assert_eq!(duration_display(61_999), "1:01");
    assert_eq!(duration_display(999), "0:00");
    assert_eq!(duration_display(3_600_000), "60:00");
}

/// Plays events into a session and lists the steps that they answered.
fn play(events: Vec<Event>) -> (Vec<Step>, Session) {
    let mut session = Session::new();
    let mut steps = vec![];
    for event in events {
        steps.push(session.step);
        session = session.next(event);
    }
    (steps, session)
}

fn cause() -> Event {
    Event::Failed("cause".into())
}

/// The events of a session in which all goes well, up to the watching of the
/// track.
fn to_recording() -> Vec<Event> {
    vec![
        Event::Answer(true),
        Event::Track("Song".into(), true),
        Event::Node(7),
        Event::Node(9),
        Event::Done,
        Event::Done,
        Event::Answer(false),
        Event::Done,
        Event::Done,
        Event::Done,
        Event::Done,
        Event::Done,
        Event::Done,
        Event::Done,
        Event::Done,
        Event::Amount(227_841),
    ]
}

fn then(mut events: Vec<Event>, more: Vec<Event>) -> Vec<Event> {
    events.extend(more);
    events
}

#[test]
fn a_session_records_and_puts_everything_back() {
    let (steps, session) = play(then(
        to_recording(),
        vec![
            Event::Done,
            cause(),
            Event::Done,
            Event::Done,
            Event::Done,
            Event::Amount(1),
            Event::Answer(true),
            Event::Done,
            Event::Done,
            cause(),
            cause(),
        ],
    ));
    assert_eq!(
        steps,
        [
            Step::CheckRunning, Step::LoadMetadata, Step::CreateSink, Step::FindStream,
            Step::Redirect, Step::CreateFolder, Step::LookForOutput, Step::OpenTrack,
            Step::AwaitTrack, Step::PauseTrack, Step::SeekToStart, Step::AwaitStart,
            Step::StartCapture, Step::Play, Step::AwaitPlaying, Step::ReadDuration, Step::Record,
            Step::PauseSpotify, Step::AwaitSilence, Step::StopCapture, Step::RestoreAudio,
            Step::MeasureOutput, Step::EmbedMetadata, Step::ReplaceOutput, Step::Report,
            Step::RestoreOnExit,
            Step::DestroySink,
        ]
    );
    assert_eq!(session.step, Step::Over);
    assert!(session.error.is_none());
}

#[test]
fn a_new_session_has_learnt_nothing() {
    let session = Session::new();
    assert_eq!(session.step, Step::CheckRunning);
    assert_eq!((session.searches, session.sink, session.stream, session.duration_ms), (0, 0, 0, 0));
    assert!(session.name.is_empty() && session.not_found.is_empty() && !session.tagged);
    assert!(session.unwatched.is_none() && session.error.is_none());
}

#[test]
fn a_session_without_tags_embeds_nothing() {
    let mut events = to_recording();
    events[1] = Event::Track("Song".into(), false);
    let (_, session) = play(then(
        events,
        vec![Event::Done, Event::Done, Event::Done, Event::Done, Event::Done, Event::Amount(5)],
    ));
    assert_eq!(session.step, Step::Report);
}

fn failed(events: Vec<Event>, step: Step, words: &str) {
    let (_, session) = play(events);
    assert_eq!(session.step, step);
    assert_eq!(session.error.expect("an error").message("out.mp3"), words);
}

#[test]
fn each_failure_leaves_by_the_right_step() {
    failed(
        vec![Event::Answer(false)],
        Step::Over,
        "Spotify Desktop is not running. Start Spotify and play any song first",
    );
    let events = |n: usize, last: Event| {
        let mut events = to_recording();
        events.truncate(n);
        events.push(last);
        events
    };
    failed(
        events(2, cause()),
        Step::Over,
        "Failed to create PipeWire null sink for silent capture: cause",
    );
    failed(events(4, cause()), Step::DestroySink, "cause");
    failed(events(5, cause()), Step::RestoreOnExit, "Could not create output folder: cause");
    failed(
        events(6, Event::Answer(true)),
        Step::RestoreOnExit,
        "Output file already exists: out.mp3",
    );
    failed(events(7, cause()), Step::RestoreOnExit, "cause");
    failed(events(12, cause()), Step::RestoreOnExit, "Failed to start audio capture: cause");
    failed(
        events(14, cause()),
        Step::KillCapture,
        "Spotify did not start playing the track in time: cause",
    );
    failed(events(15, Event::Amount(0)), Step::KillCapture, "Track has no duration information");
    failed(events(15, cause()), Step::KillCapture, "cause");
    failed(
        events(16, Event::Cancelled),
        Step::KillCapture,
        "Capture cancelled; no file was saved",
    );
    let after = |more: Vec<Event>| then(to_recording(), more);
    failed(
        after(vec![Event::Done, Event::Done, Event::Done, cause()]),
        Step::RestoreOnExit,
        "Failed to stop capture process: cause",
    );
    failed(
        after(vec![Event::Done, Event::Done, Event::Done, Event::Done, cause()]),
        Step::RestoreOnExit,
        "cause",
    );
    failed(
        after(vec![cause(), Event::Done, Event::Done, Event::Done, Event::Done]),
        Step::RestoreOnExit,
        "cause",
    );
    failed(
        after(vec![Event::Done, Event::Done, Event::Done, Event::Done, Event::Done, cause()]),
        Step::RestoreOnExit,
        "Capture output file was not created: cause",
    );
    failed(
        after(vec![
            Event::Done, Event::Done, Event::Done, Event::Done, Event::Done, Event::Amount(0),
        ]),
        Step::RestoreOnExit,
        "Capture output file is empty; no audio was recorded",
    );
    failed(
        after(vec![
            Event::Done, Event::Done, Event::Done, Event::Done, Event::Done, Event::Amount(9),
            cause(),
        ]),
        Step::RestoreOnExit,
        "cause",
    );
}

#[test]
fn a_recording_that_cannot_be_tagged_is_kept() {
    let tagging = || {
        then(
            to_recording(),
            vec![
                Event::Done, Event::Done, Event::Done, Event::Done, Event::Done, Event::Amount(9),
            ],
        )
    };
    let (_, session) = play(then(tagging(), vec![Event::Answer(false)]));
    assert_eq!(session.step, Step::Report);
    assert!(session.error.is_none());
    failed(then(tagging(), vec![Event::Answer(true), cause()]), Step::RestoreOnExit, "cause");
}

#[test]
fn a_cancelled_session_removes_its_file() {
    let (steps, session) = play(then(
        to_recording(),
        vec![Event::Cancelled, Event::Done, Event::Done, Event::Done, Event::Done],
    ));
    assert_eq!(
        steps[16..],
        [
            Step::Record, Step::KillCapture, Step::RemoveOutput, Step::RestoreOnExit,
            Step::DestroySink,
        ]
    );
    assert_eq!(session.step, Step::Over);
    assert!(matches!(session.error, Some(SessionError::Cancelled)));
    // Another failure leaves the file where it is.
    let mut events = to_recording();
    events.truncate(14);
    let (_, session) = play(then(events, vec![cause(), Event::Done]));
    assert_eq!(session.step, Step::RestoreOnExit);
}

#[test]
fn spotify_is_woken_and_its_audio_searched_for_twenty_times() {
    let mut session = Session::new();
    for event in [Event::Answer(true), Event::Track("Song".into(), true), Event::Node(7)] {
        session = session.next(event);
    }
    session = session.next(Event::Failed("first".into()));
    assert_eq!(session.step, Step::WakeSpotify);
    session = session.next(cause());
    let mut searches = 0;
    while session.step == Step::AwaitStream {
        session = session.next(Event::Done);
        assert_eq!(session.step, Step::SearchStream);
        searches += 1;
        session = session.next(Event::Failed("later".into()));
    }
    assert_eq!(searches, 20);
    assert_eq!(session.step, Step::DestroySink);
    assert_eq!(
        session.error.expect("an error").message(""),
        "Could not find Spotify's audio in PipeWire. Make sure Spotify Desktop is running: first"
    );
}

#[test]
fn audio_that_is_found_late_is_paused_first() {
    let (_, session) = play(vec![
        Event::Answer(true),
        Event::Track("Song".into(), true),
        Event::Node(7),
        cause(),
        Event::Done,
        Event::Done,
        Event::Node(9),
    ]);
    assert_eq!(session.step, Step::PauseFound);
    assert_eq!(session.stream, 9);
    assert_eq!(session.next(cause()).step, Step::Redirect);
}

#[test]
fn whatever_happens_a_session_ends_and_cleans_up() {
    // The answers are drawn from a simple generator; the session is asked each time
    // which step it is at, and the outside world is kept as the steps leave it.
    let mut seed: u64 = 12345;
    for _ in 0..2000 {
        let mut session = Session::new();
        let (mut sink, mut redirected, mut recording, mut file, mut count) =
            (false, false, false, false, 0);
        while session.step != Step::Over {
            seed = seed.wrapping_mul(6364136223846793005).wrapping_add(1442695040888963407);
            let good = (seed >> 33) % 8 != 0;
            let event = match session.step {
                Step::CheckRunning => Event::Answer(good),
                Step::LoadMetadata => Event::Track("Song".into(), good),
                Step::LookForOutput => Event::Answer(!good),
                Step::EmbedMetadata => Event::Answer(good),
                Step::CreateSink | Step::FindStream | Step::SearchStream if good => Event::Node(1),
                Step::ReadDuration | Step::MeasureOutput if good => Event::Amount(1),
                Step::Record if !good => Event::Cancelled,
                _ if good => Event::Done,
                _ => cause(),
            };
            match session.step {
                Step::CreateSink => sink = good,
                Step::Redirect => redirected = good,
                Step::StartCapture => (recording, file) = (good, good),
                Step::RemoveOutput => file = false,
                Step::DestroySink => sink = false,
                Step::RestoreAudio | Step::RestoreOnExit => redirected = false,
                Step::StopCapture | Step::KillCapture => recording = false,
                _ => {}
            }
            session = session.next(event);
            count += 1;
        }
        assert!(!sink && !redirected && !recording);
        assert!(!(file && matches!(session.error, Some(SessionError::Cancelled))));
        assert!(count <= 69);
    }
}

#[test]
fn events_that_do_not_belong_to_a_step_change_nothing() {
    let session = Session::new().next(Event::Done);
    assert_eq!(session.step, Step::CheckRunning);
    let (_, session) = play(vec![Event::Answer(true), Event::Cancelled]);
    assert_eq!(session.step, Step::LoadMetadata);
}

#[test]
fn the_user_is_told_what_happens() {
    let (_, mut session) = play(to_recording());
    let told = |session: &Session| session.announcements(Format::Flac, Bitrate::Kbps320);
    assert_eq!(told(&session), ["Recording Song (3:47)…"]);
    session.step = Step::FindStream;
    assert_eq!(told(&session), ["Null sink created (node 7)", "Finding Spotify audio stream…"]);
    session.step = Step::Redirect;
    assert_eq!(
        told(&session),
        ["Found Spotify stream (node 9)", "Redirecting Spotify audio for silent capture…"]
    );
    session.step = Step::CreateFolder;
    assert_eq!(told(&session), ["Redirected Spotify (node 9) → null sink (node 7)"]);
    session.step = Step::StartCapture;
    assert_eq!(told(&session), ["Starting 320k FLAC capture…"]);
    session.step = Step::OpenTrack;
    assert_eq!(told(&session), ["Preparing Song in Spotify…"]);
    session.step = Step::KillCapture;
    assert!(told(&session).is_empty());
}

#[test]
fn some_steps_wait() {
    assert_eq!(Step::AwaitStream.pause_ms(), 150);
    assert_eq!(Step::AwaitTrack.pause_ms(), 400);
    assert_eq!(Step::AwaitStart.pause_ms(), 100);
    assert_eq!(Step::AwaitSilence.pause_ms(), 500);
    assert_eq!(Step::Play.pause_ms(), 0);
}

#[test]
fn a_cancelled_session_reports_it() {
    let error = SessionError::Cancelled;
    assert_eq!(error.message("anything"), "Capture cancelled; no file was saved");
}
