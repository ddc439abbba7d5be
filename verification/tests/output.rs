use spotcapture::output::{
    partial_name, pcm_bytes, Arg, Bitrate, BoundedTail, Encoder, EncoderConfig, EncoderError,
    Finish, FinishEvent, FinishStep, Format, Metadata, Start, StartEvent, StartStep, Unsupported,
    Written, CHANNELS, SAMPLE_RATE,
};
use std::path::PathBuf;

#[test]
fn diagnostic_reader_consumes_everything_but_retains_only_tail() {
    let source: Vec<u8> = (0..100_000).map(|index| (index % 251) as u8).collect();
    let read = |limit: usize| {
        let mut tail = BoundedTail::new(limit);
        for block in source.chunks(8192) {
            tail.read_bounded_tail(block);
        }
        tail.into_bytes()
    };
    assert_eq!(read(17_000), source[source.len() - 17_000..]);
    assert_eq!(read(0), Vec::<u8>::new());
    assert_eq!(read(200_000), source);
}

fn config(format: Format) -> EncoderConfig {
    EncoderConfig::new(PathBuf::from("out"), format)
}

fn encoder() -> Encoder {
    Encoder::new(config(Format::Flac), false, false).ok().unwrap()
}

#[test]
fn existing_output_is_never_modified() {
    let refused = Encoder::new(config(Format::Flac), true, false);
    assert!(matches!(refused, Err(EncoderError::OutputExists)));
    assert_eq!(
        EncoderError::OutputExists.message("existing.flac", ""),
        "output already exists: existing.flac"
    );
}

#[test]
fn encoders_start_from_defaults() {
    let settings = config(Format::Mp3).with_bitrate(Bitrate::Kbps192);
    assert_eq!(settings.output, PathBuf::from("out"));
    assert_eq!(settings.ffmpeg, PathBuf::from("ffmpeg"));
    assert_eq!(settings.bitrate, Bitrate::Kbps192);
    assert!(settings.artwork.is_none());
    assert_eq!(config(Format::Mp3).bitrate, Bitrate::Kbps320);
    assert_eq!(Bitrate::default(), Bitrate::Kbps320);
    assert_eq!(Format::default(), Format::Mp3);
    assert_eq!((SAMPLE_RATE, CHANNELS), (44_100, 2));
}

#[test]
fn covers_need_a_format_and_a_file() {
    let with_cover = |format| {
        let mut settings = config(format);
        settings.artwork = Some(PathBuf::from("cover.jpg"));
        settings
    };
    assert!(matches!(
        Encoder::new(with_cover(Format::Wav), false, true),
        Err(EncoderError::ArtworkUnsupported)
    ));
    assert!(matches!(
        Encoder::new(with_cover(Format::Flac), false, false),
        Err(EncoderError::ArtworkUnreadable)
    ));
    assert!(Encoder::new(with_cover(Format::Flac), false, true).is_ok());
    assert_eq!(
        EncoderError::ArtworkUnreadable.message("out", "cover.jpg"),
        "artwork is not a readable file: cover.jpg"
    );
}

fn shown(args: Vec<Arg>) -> Vec<String> {
    args.into_iter()
        .map(|arg| match arg {
            Arg::Text(text) => text,
            Arg::Path(path) => format!("<{}>", path.display()),
        })
        .collect()
}

#[test]
fn ffmpeg_is_told_what_to_encode() {
    let mut settings = config(Format::Flac);
    settings.artwork = Some(PathBuf::from("cover.jpg"));
    settings.metadata = Metadata {
        title: Some("Synthetic tone = test".into()),
        track: Some("2/3".into()),
        ..Default::default()
    };
    let encoder = Encoder::new(settings, false, true).ok().unwrap();
    assert_eq!(
        shown(encoder.arguments(&PathBuf::from(".partial"))),
        [
            "-hide_banner", "-loglevel", "error", "-nostats", "-nostdin", "-y", "-f", "f32le",
            "-ar", "44100", "-ac", "2", "-i", "pipe:0", "-i", "<cover.jpg>", "-map", "0:a:0",
            "-map_metadata", "-1", "-map_chapters", "-1", "-map", "1:v:0", "-c:v", "copy",
            "-disposition:v:0", "attached_pic", "-metadata:s:v:0", "title=Album cover",
            "-metadata:s:v:0", "comment=Cover (front)", "-c:a", "flac", "-compression_level", "5",
            "-sample_fmt", "s32", "-bits_per_raw_sample", "24", "-metadata",
            "title=Synthetic tone = test", "-metadata", "track=2/3", "-f", "flac", "<.partial>",
        ]
    );
    let wav = Encoder::new(config(Format::Wav), false, false).ok().unwrap();
    let args = shown(wav.arguments(&PathBuf::from("p")));
    assert!(args.contains(&"pcm_s24le".to_string()));
    assert_eq!(wav.config().format, Format::Wav);
}

#[test]
fn samples_are_counted_in_frames() {
    let mut encoder = encoder();
    encoder.write_samples(997, Written::Accepted).unwrap();
    encoder.write_samples(88_200 - 997, Written::Accepted).unwrap();
    assert_eq!(encoder.frames_written(), SAMPLE_RATE as u64);
    assert!(encoder.finish().is_ok());
}

#[test]
fn a_failed_write_is_final() {
    let mut encoder = encoder();
    encoder.write_samples(4, Written::Accepted).unwrap();
    assert!(matches!(
        encoder.write_samples(2, Written::Closed),
        Err(EncoderError::InputClosed)
    ));
    assert!(encoder.check_write(2).is_ok());
    assert!(matches!(
        encoder.write_samples(2, Written::Refused),
        Err(EncoderError::InputRefused)
    ));
    assert!(matches!(encoder.check_write(2), Err(EncoderError::WriteAfterFailure)));
    assert!(matches!(
        encoder.write_samples(2, Written::Accepted),
        Err(EncoderError::WriteAfterFailure)
    ));
    assert_eq!(encoder.frames_written(), 2);
    assert!(matches!(encoder.finish(), Err(EncoderError::FinishAfterFailure)));
}

#[test]
fn samples_are_not_counted_beyond_the_limit() {
    let mut encoder = encoder();
    encoder.write_samples(u64::MAX, Written::Accepted).unwrap();
    assert!(matches!(encoder.check_write(1), Err(EncoderError::SampleOverflow)));
}

/// Plays events into the end of an encoding and lists the steps.
fn end(mut finish: Finish, events: Vec<FinishEvent>) -> (Vec<FinishStep>, Finish) {
    let mut steps = vec![];
    for event in events {
        steps.push(finish.step);
        finish = finish.next(event);
    }
    (steps, finish)
}

fn exit(success: bool) -> FinishEvent {
    FinishEvent::Exit(success, "exit status: 1".into())
}

fn written() -> Encoder {
    let mut encoder = encoder();
    encoder.write_samples(2 * 8192, Written::Accepted).unwrap();
    encoder
}

fn cause() -> FinishEvent {
    FinishEvent::Failed("cause".into())
}

#[test]
fn cancelled_empty_and_incomplete_captures_leave_no_output() {
    let (steps, over) = end(written().cancel(), vec![FinishEvent::Done, FinishEvent::Done]);
    assert_eq!(steps, [FinishStep::Kill, FinishStep::Discard]);
    assert_eq!(over.step, FinishStep::Over);

    assert!(matches!(encoder().finish(), Err(EncoderError::NoAudio)));

    let mut incomplete = encoder();
    incomplete.write_samples(1, Written::Accepted).unwrap();
    assert!(matches!(incomplete.finish(), Err(EncoderError::IncompleteFrame)));
}

#[test]
fn a_complete_file_is_published() {
    let (steps, over) = end(
        written().finish().unwrap(),
        vec![
            exit(true),
            FinishEvent::Said(vec![]),
            FinishEvent::Done,
            FinishEvent::Size(1),
            FinishEvent::Done,
            FinishEvent::Done,
            cause(),
            cause(),
            cause(),
        ],
    );
    assert_eq!(
        steps,
        [
            FinishStep::Wait, FinishStep::ReadDiagnostics, FinishStep::OpenPartial,
            FinishStep::MeasurePartial, FinishStep::SyncPartial, FinishStep::Publish,
            FinishStep::RemovePartial, FinishStep::SyncFolder, FinishStep::Discard,
        ]
    );
    assert_eq!(over.step, FinishStep::Over);
    assert!(over.error.is_none());
}

#[test]
fn output_created_during_capture_is_not_overwritten() {
    let (_, finish) = end(
        written().finish().unwrap(),
        vec![
            exit(true),
            FinishEvent::Said(vec![]),
            FinishEvent::Done,
            FinishEvent::Size(1),
            FinishEvent::Done,
            FinishEvent::Failed("File exists".into()),
        ],
    );
    assert_eq!(finish.step, FinishStep::Discard);
    assert_eq!(
        finish.error.unwrap().message("race.flac", ""),
        "cannot publish race.flac without overwriting an existing file; \
         the output filesystem must support hard links: File exists"
    );
}

fn failed(events: Vec<FinishEvent>, step: FinishStep, words: &str) {
    let (_, finish) = end(written().finish().unwrap(), events);
    assert_eq!(finish.step, step);
    assert_eq!(finish.error.expect("an error").message("out", "art"), words);
}

#[test]
fn incomplete_files_are_discarded() {
    let said = || FinishEvent::Said(b"  broken \xff\n".to_vec());
    let discard = FinishStep::Discard;
    failed(vec![cause()], FinishStep::Kill, "cannot wait for FFmpeg: cause");
    failed(
        vec![exit(false), said()],
        discard,
        "FFmpeg failed (exit status: 1): broken \u{fffd}",
    );
    failed(vec![exit(true), cause()], discard, "cannot read FFmpeg diagnostics: cause");
    failed(
        vec![exit(true), FinishEvent::Panicked],
        discard,
        "FFmpeg stderr reader panicked",
    );
    failed(
        vec![exit(true), said(), cause()],
        discard,
        "FFmpeg did not produce its temporary output: cause",
    );
    failed(vec![exit(true), said(), FinishEvent::Done, cause()], discard, "cause");
    failed(
        vec![exit(true), said(), FinishEvent::Done, FinishEvent::Size(0)],
        discard,
        "FFmpeg produced an empty file; no output was saved",
    );
    failed(
        vec![exit(true), said(), FinishEvent::Done, FinishEvent::Size(9), cause()],
        discard,
        "cannot sync encoded audio: cause",
    );
}

#[test]
fn formats_and_bitrates_have_names() {
    for format in [Format::Flac, Format::Wav, Format::Mp3] {
        assert_eq!(Format::parse(format.extension()).unwrap(), format);
        assert_eq!(format.extension().to_uppercase().parse::<Format>().unwrap(), format);
    }
    for bitrate in [Bitrate::Kbps128, Bitrate::Kbps192, Bitrate::Kbps256, Bitrate::Kbps320] {
        assert_eq!(Bitrate::parse(bitrate.label()).unwrap(), bitrate);
        assert_eq!(bitrate.kbps().to_string().parse::<Bitrate>().unwrap(), bitrate);
        assert_eq!(Bitrate::parse(&format!("{}kbps", bitrate.kbps())).unwrap(), bitrate);
    }
    assert!(Format::Flac.supports_artwork() && !Format::Wav.supports_artwork());
    assert!(matches!(Format::parse("ogg"), Err(Unsupported::Format(word)) if word == "ogg"));
    assert!(matches!(Bitrate::parse("64"), Err(Unsupported::Bitrate(word)) if word == "64"));
}

#[test]
fn partial_files_are_hidden_and_differ() {
    assert_eq!(partial_name(b"out.flac", 1, 23, 4), b".out.flac.1.23.4.partial");
    assert_ne!(partial_name(b"out", 1, 23, 4), partial_name(b"out", 12, 3, 4));
    assert_ne!(partial_name(b"out", 1, 2, 34), partial_name(b"out", 1, 23, 4));
}

/// Plays events into the start of an encoding and lists the steps.
fn begin(events: Vec<StartEvent>) -> (Vec<StartStep>, Start) {
    let mut start = encoder().start();
    let mut steps = vec![];
    for event in events {
        steps.push(start.step);
        start = start.next(event);
    }
    (steps, start)
}

fn refused() -> StartEvent {
    StartEvent::Failed("missing-ffmpeg".into(), "No such file".into())
}

#[test]
fn startup_failure_removes_partial() {
    let (steps, start) = begin(vec![
        StartEvent::Answer(true),
        StartEvent::Done,
        StartEvent::Done,
        refused(),
        StartEvent::Done,
    ]);
    assert_eq!(
        steps,
        [
            StartStep::FindName, StartStep::CreateFolder, StartStep::CreatePartial,
            StartStep::StartFfmpeg, StartStep::Discard,
        ]
    );
    assert_eq!(start.step, StartStep::Over);
    assert_eq!(
        start.error.unwrap().message("failed.flac", ""),
        "cannot start missing-ffmpeg; install FFmpeg or set its executable path: No such file"
    );
}

#[test]
fn an_encoding_starts() {
    let (_, start) = begin(vec![
        StartEvent::Answer(true),
        StartEvent::Done,
        StartEvent::Taken,
        StartEvent::Done,
        StartEvent::Done,
        StartEvent::Answer(true),
        StartEvent::Done,
    ]);
    assert_eq!(start.step, StartStep::Running);
    assert!(start.error.is_none());
}

#[test]
fn each_failed_start_says_why() {
    let fails = |more: Vec<StartEvent>, step: StartStep, words: &str| {
        let (_, start) = begin(more);
        assert_eq!(start.step, step);
        assert_eq!(start.error.expect("an error").message("", ""), words);
    };
    let named = || vec![StartEvent::Answer(true)];
    let after = |mut events: Vec<StartEvent>, more: Vec<StartEvent>| {
        events.extend(more);
        events
    };
    fails(
        vec![StartEvent::Answer(false)],
        StartStep::Over,
        "output must include a filename",
    );
    fails(
        after(named(), vec![refused()]),
        StartStep::Over,
        "cannot create output directory missing-ffmpeg: No such file",
    );
    fails(
        after(named(), vec![StartEvent::Done, refused()]),
        StartStep::Over,
        "cannot create partial file missing-ffmpeg: No such file",
    );
    let running = || after(named(), vec![StartEvent::Done, StartEvent::Done, StartEvent::Done]);
    fails(
        after(running(), vec![StartEvent::Answer(false)]),
        StartStep::Kill,
        "FFmpeg stderr pipe missing",
    );
    fails(
        after(running(), vec![StartEvent::Answer(true), refused()]),
        StartStep::Kill,
        "cannot start FFmpeg stderr reader: No such file",
    );
}

#[test]
fn a_hundred_and_twenty_eight_names_are_tried() {
    let mut start = encoder().start().next(StartEvent::Answer(true)).next(StartEvent::Done);
    let mut tries = 0;
    while start.step == StartStep::CreatePartial {
        start = start.next(StartEvent::Taken);
        tries += 1;
    }
    assert_eq!(tries, 128);
    assert_eq!(start.step, StartStep::Over);
    assert_eq!(
        start.error.unwrap().message("", ""),
        "could not reserve a unique partial output file"
    );
}

#[test]
fn samples_are_sent_alike_in_one_write_or_two() {
    let samples: Vec<u32> = [0.0f32, 0.125, -1.0, 1.0].iter().map(|s| s.to_bits()).collect();
    let bytes: Vec<u8> =
        [0.0f32, 0.125, -1.0, 1.0].iter().flat_map(|s| s.to_le_bytes()).collect();
    assert_eq!(pcm_bytes(&samples), bytes);
    let mut parts = pcm_bytes(&samples[..1]);
    parts.extend(pcm_bytes(&samples[1..]));
    assert_eq!(parts, bytes);
    assert_eq!(pcm_bytes(&[0x0403_0201]), [1, 2, 3, 4]);
    let (mut one, mut two) = (encoder(), encoder());
    one.write_samples(88_200, Written::Accepted).unwrap();
    two.write_samples(997, Written::Accepted).unwrap();
    two.write_samples(87_203, Written::Accepted).unwrap();
    assert_eq!((one.frames_written(), two.frames_written()), (44_100, 44_100));
}
