use spotcapture::output::Arg;
use spotcapture::pipewire_capture::{
    create_null_sink, create_sink_args, creation_outcome, destroy_null_sink, find_spotify_stream,
    get_default_sink_id, parse_dump, redirect_to_sink, restore_audio, sink_id_in, sink_name,
    start_ffmpeg_capture, stop, NullSink, PipewireError, SpotifyStream, Stopping,
};
use std::path::PathBuf;

#[test]
fn null_sink_name_is_unique_per_process() {
    let name = sink_name(4321);
    assert_eq!(name, format!("spotcapture_sink_{}", 4321));
    assert!(name.starts_with("spotcapture_sink_"));
    assert!(name.len() > 18);
    assert_ne!(sink_name(1), sink_name(11));
}

const DUMP: &[u8] = br#"[
  {"id": 30, "info": {"props": {"application.name": "firefox", "media.class": "Stream/Output/Audio"}}},
  {"id": 40, "info": {"props": {"application.name": "Spotify", "media.class": "Audio/Sink"}}},
  {"id": 50, "info": {"props": {"node.name": "SPOTIFY", "media.class": "Stream/Output/Audio"}}},
  {"id": 60, "info": {"props": {"application.name": "spotify", "media.class": "Stream/Output/Audio"}}},
  {"id": 51, "info": {"props": {"node.id": 50, "port.direction": "out"}}},
  {"id": 52, "info": {"props": {"node.id": 50, "port.direction": "in", "node.target": 99}}},
  {"id": 53, "info": {"props": {"node.id": 50, "port.direction": "out"}}},
  {"id": 61, "info": {"props": {"node.id": 60, "port.direction": "out"}}},
  {"id": 70, "info": {"props": {"node.name": "spotcapture_sink_7"}}}
]"#;

#[test]
fn the_stream_of_spotify_is_found() {
    let objects = parse_dump(DUMP).unwrap();
    let stream = find_spotify_stream(&objects).unwrap();
    assert_eq!(stream.node_id, 50);
    assert_eq!(stream.output_port_ids, [51, 53]);
    assert_eq!(stream.original_target, Some(99));
    let sink = create_null_sink(&objects, "spotcapture_sink_7".into()).unwrap();
    assert_eq!(sink.node_id, 70);
    assert_eq!(sink.name, "spotcapture_sink_7");
}

#[test]
fn what_is_not_there_is_not_found() {
    let none = parse_dump(b"[]").unwrap();
    assert_eq!(find_spotify_stream(&none).unwrap_err(), PipewireError::NoStream);
    assert_eq!(create_null_sink(&none, "x".into()).unwrap_err(), PipewireError::NoSink);
    assert_eq!(creation_outcome(true, b"ignored"), Ok(()));
    assert_eq!(
        creation_outcome(false, b"no \xff").unwrap_err().message(),
        "Failed to create null sink: no \u{fffd}"
    );
    assert_eq!(
        parse_dump(b"{}").err().unwrap().message(),
        "Failed to parse pw-dump output: invalid type: map, expected a sequence at line 1 column 0"
    );
    assert_eq!(
        parse_dump(b"[").err().unwrap().message(),
        "Failed to parse pw-dump output: EOF while parsing a list at line 1 column 1"
    );
}

fn stream() -> SpotifyStream {
    SpotifyStream { node_id: 50, output_port_ids: vec![], original_target: None }
}

fn sink() -> NullSink {
    NullSink { node_id: 70, name: "sink".into() }
}

#[test]
fn commands_redirect_and_restore() {
    let to = redirect_to_sink(&stream(), &sink());
    assert_eq!(to.set_default, ["set-default", "70"]);
    assert_eq!(to.set_target, ["50", "target.node", "70", "Spa:Id"]);
    assert_eq!(to.otherwise, ["0", "target.node.50", "70", "Spa:Id"]);
    let (clear, delete) = restore_audio(&stream());
    assert_eq!(clear, ["50", "target.node", "", ""]);
    assert_eq!(delete, ["-d", "50", "target.node"]);
    assert_eq!(delete[1..], to.set_target[..2]);
    assert_eq!(destroy_null_sink(&sink()), ["destroy", "70"]);
    let create = create_sink_args("sink");
    assert_eq!(create[..2], ["create-node", "adapter"]);
    assert_eq!(
        create[2],
        "{ \"factory.name\": \"support.null-audio-sink\", \"node.name\": \"sink\", \
         \"media.class\": \"Audio/Sink\", \"object.linger\": true, \
         \"audio.position\": \"[FL,FR]\", \"monitor.channel-volumes\": true }"
    );
}

fn shown(args: Vec<Arg>) -> Vec<String> {
    args.into_iter()
        .map(|arg| match arg {
            Arg::Text(text) => text,
            Arg::Path(path) => format!("<{}>", path.display()),
        })
        .collect()
}

#[test]
fn the_monitor_of_the_sink_is_recorded() {
    let output = PathBuf::from("song.mp3");
    assert_eq!(
        shown(start_ffmpeg_capture(&sink(), &output, "mp3", "192")),
        [
            "-hide_banner", "-loglevel", "error", "-nostats", "-nostdin", "-y", "-f", "pulse",
            "-i", "sink.monitor", "-ar", "44100", "-ac", "2", "-c:a", "libmp3lame", "-b:a", "192k",
            "-id3v2_version", "3", "-f", "mp3", "<song.mp3>",
        ]
    );
    let flac = shown(start_ffmpeg_capture(&sink(), &output, "flac", "192"));
    assert!(flac.contains(&"flac".to_string()) && !flac.contains(&"192k".to_string()));
    let other = shown(start_ffmpeg_capture(&sink(), &output, "ogg", "192"));
    assert_eq!(other[other.len() - 2], "mp3");
}

#[test]
fn ffmpeg_is_given_five_seconds_to_stop() {
    assert_eq!(stop(true, 9_999_999_999), Stopping::Done);
    assert_eq!(stop(false, 5_000_000_000), Stopping::Wait);
    assert_eq!(stop(false, 5_000_000_001), Stopping::Kill);
}

#[test]
fn the_default_sink_is_read() {
    assert_eq!(sink_id_in("id 45, type PipeWire:Interface:Node\n"), Ok(45));
    assert_eq!(sink_id_in("none\n  id x, \n  id 7\n"), Ok(7));
    assert_eq!(sink_id_in("id 4294967296,"), Err(PipewireError::NoDefaultSink));
    assert_eq!(get_default_sink_id(true, b"\xff\nid 45, type\n"), Ok(45));
    let error = get_default_sink_id(false, b"id 45").unwrap_err();
    assert_eq!(error.message(), "Could not inspect default audio sink");
}
