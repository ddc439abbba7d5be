use spotcapture::spotify_dbus::{
    dbus_send_raw, extract_int64, extract_string_variant, get_metadata, get_playback_status, get_position,
    get_property, is_spotify_running, method_outcome, open_uri, parse_metadata, pause, play,
    running_request, says_running, seek_outcome, seek_to_start, wait_for_playing, DbusError, Look, MprisMetadata, PlaybackStatus, Tick,
    TrackEndMonitor, Waiting,
};

#[test]
fn parse_dbus_metadata_output() {
    let sample = r#"method return sender=:1.188 -> destination=:1.274
   variant       array [
         dict entry(
            string "mpris:trackid"
            variant               string "/com/spotify/track/5erh9j6o7dOzSDxLnBirqK"
         )
         dict entry(
            string "mpris:length"
            variant               uint64 227841000
         )
         dict entry(
            string "mpris:artUrl"
            variant               string "https://i.scdn.co/image/ab67616d0000b273b9d93bdf77c7d1fb148f71fe"
         )
         dict entry(
            string "xesam:title"
            variant               string "Khola Haowa"
         )
         dict entry(
            string "xesam:album"
            variant               string "Khola Haowa"
         )
         dict entry(
            string "xesam:artist"
            variant               array [
                  string "Nachiketa"
               ]
         )
      ]"#;
    let meta = parse_metadata(sample).unwrap();
    assert_eq!(meta.track_id, "/com/spotify/track/5erh9j6o7dOzSDxLnBirqK");
    assert_eq!(meta.duration_us, 227841000);
    assert_eq!(meta.duration_ms(), 227841);
    assert_eq!(meta.title, "Khola Haowa");
    assert_eq!(meta.album, "Khola Haowa");
    assert_eq!(meta.artist, "Nachiketa");
    assert_eq!(meta.art_url, "https://i.scdn.co/image/ab67616d0000b273b9d93bdf77c7d1fb148f71fe");
    assert_eq!(meta.spotify_uri().unwrap(), "spotify:track:5erh9j6o7dOzSDxLnBirqK");
    assert_eq!(meta.track_id_short().unwrap(), "5erh9j6o7dOzSDxLnBirqK");
}

#[test]
fn extract_playback_status_string() {
    let sample = r#"method return
   variant       string "Playing""#;
    assert_eq!(extract_string_variant(sample), "Playing");
}

#[test]
fn extract_position_int64() {
    let sample = r#"method return
   variant       int64 193540000"#;
    assert_eq!(extract_int64(sample).unwrap(), 193540000);
}

#[test]
fn replies_read_back_what_was_replied() {
    for value in ["", "a \"b\" c", "  padded  ", "বাংলা"] {
        let reply = format!("method return time=1\n   variant       string \"{value}\"\n");
        assert_eq!(extract_string_variant(&reply), value);
    }
    for n in [0, 7, 1_000_000, u64::MAX] {
        let reply = format!("method return time=1\n   variant       int64 {n}\n");
        assert_eq!(extract_int64(&reply).unwrap(), n);
    }
    assert_eq!(extract_int64("variant uint64 12").unwrap(), 12);
    assert_eq!(extract_string_variant("   string \"bare\"\r\n"), "bare");
}

#[test]
fn replies_without_a_value_are_told_apart() {
    assert_eq!(extract_string_variant("method return"), "");
    assert!(matches!(extract_int64("method return"), Err(DbusError::NoInteger)));
    assert!(matches!(extract_int64("variant int64 -5"), Err(DbusError::InvalidInteger)));
    assert!(matches!(
        extract_int64("variant int64 18446744073709551616"),
        Err(DbusError::InvalidInteger)
    ));
    assert!(matches!(parse_metadata("variant array ["), Err(DbusError::NoTrackId)));
    assert!(matches!(open_uri("http://example.com/"), Err(DbusError::NotSpotify)));
    assert_eq!(DbusError::Call("Broken".into()).message(), "Broken");
}

#[test]
fn the_first_number_line_decides() {
    let reply = "variant int64 x\nvariant int64 5";
    assert!(matches!(extract_int64(reply), Err(DbusError::InvalidInteger)));
}

#[test]
fn replies_of_spotify_are_understood() {
    let reply = |word: &str| Ok(format!("method return\n   variant       string \"{word}\"\n"));
    assert_eq!(get_playback_status(reply("Playing")).unwrap(), PlaybackStatus::Playing);
    assert_eq!(get_playback_status(reply("Paused")).unwrap(), PlaybackStatus::Paused);
    assert_eq!(get_playback_status(reply("Other")).unwrap(), PlaybackStatus::Stopped);
    assert!(get_playback_status(Err(DbusError::Call("gone".into()))).is_err());
    assert_eq!(get_position(Ok("variant int64 42".into())).unwrap(), 42);
    assert!(get_metadata(Err(DbusError::Call("gone".into()))).is_err());
    assert!(says_running("   boolean true\n") && !says_running("   boolean false\n"));
    assert!(is_spotify_running(Some(b"\xff   boolean true\n")));
    assert!(!is_spotify_running(Some(b"   boolean false\n")));
    assert!(!is_spotify_running(None));
}

#[test]
fn requests_name_the_player() {
    let dest = "--dest=org.mpris.MediaPlayer2.spotify";
    let path = "/org/mpris/MediaPlayer2";
    assert_eq!(
        pause(),
        ["--print-reply", dest, path, "org.mpris.MediaPlayer2.Player.Pause"]
    );
    assert_eq!(play()[3], "org.mpris.MediaPlayer2.Player.Play");
    assert_eq!(
        get_property("Position"),
        [
            "--print-reply", dest, path, "org.freedesktop.DBus.Properties.Get",
            "string:org.mpris.MediaPlayer2.Player", "string:Position",
        ]
    );
    let open = open_uri("spotify:track:abc").unwrap();
    assert_eq!(
        open,
        [
            "--print-reply", dest, path, "org.mpris.MediaPlayer2.Player.OpenUri",
            "string:spotify:track:abc",
        ]
    );
    assert!(open_uri("https://open.spotify.com/track/abc").is_ok());
    let seek = seek_to_start(&track("abc"));
    assert_eq!(
        seek[3..],
        [
            "org.mpris.MediaPlayer2.Player.SetPosition",
            "objpath:/com/spotify/track/abc",
            "int64:0",
        ]
    );
    assert_eq!(
        running_request(),
        [
            "--print-reply", "--dest=org.freedesktop.DBus", "/org/freedesktop/DBus",
            "org.freedesktop.DBus.NameHasOwner", "string:org.mpris.MediaPlayer2.spotify",
        ]
    );
}

fn track(id: &str) -> MprisMetadata {
    let mut meta = MprisMetadata::default();
    meta.track_id = format!("/com/spotify/track/{id}");
    meta
}

#[test]
fn identifiers_are_taken_from_object_paths() {
    assert_eq!(track("short").spotify_uri(), None);
    assert_eq!(track("short").track_id_short(), Some("short"));
    let mut elsewhere = track("5erh9j6o7dOzSDxLnBirqK");
    elsewhere.track_id = "/org/other/5erh9j6o7dOzSDxLnBirqK".into();
    assert_eq!(elsewhere.spotify_uri(), None);
    assert_eq!(elsewhere.track_id_short(), None);
}

#[test]
fn playing_is_waited_for() {
    let wait = |elapsed, status, meta| wait_for_playing("abc", elapsed, 15, status, meta);
    let playing = Some(PlaybackStatus::Playing);
    assert_eq!(wait(0, playing, Some(track("abc"))), Waiting::Started);
    assert_eq!(wait(0, playing, Some(track("other"))), Waiting::Again);
    assert_eq!(wait(0, Some(PlaybackStatus::Paused), Some(track("abc"))), Waiting::Again);
    assert_eq!(wait(0, None, None), Waiting::Again);
    assert_eq!(wait(16, None, None), Waiting::TimedOut);
}

fn look(ms: u64, status: PlaybackStatus) -> Look {
    Look { cancelled: false, position_us: Some(ms * 1000), status: Some(status) }
}

#[test]
fn a_track_ends_at_its_end() {
    let mut monitor = TrackEndMonitor::new(200_000_000);
    assert_eq!(monitor.duration_ms, 200_000);
    assert_eq!(
        monitor.wait_for_track_end(look(100_000, PlaybackStatus::Playing)),
        Tick::Again
    );
    let tick = monitor.wait_for_track_end(look(199_600, PlaybackStatus::Playing));
    assert!(matches!(tick, Tick::Ended | Tick::EndedAfterFlush));
    assert_eq!(monitor.max_position_ms, 199_600);
}

#[test]
fn a_track_that_stops_near_its_end_has_ended() {
    let mut monitor = TrackEndMonitor::new(200_000_000);
    monitor.wait_for_track_end(look(198_500, PlaybackStatus::Playing));
    let tick = monitor.wait_for_track_end(look(0, PlaybackStatus::Stopped));
    assert!(matches!(tick, Tick::Ended | Tick::EndedAfterFlush));
}

#[test]
fn a_watch_is_cancelled() {
    let mut monitor = TrackEndMonitor::new(200_000_000);
    let cancelled = Look { cancelled: true, position_us: None, status: None };
    assert_eq!(monitor.wait_for_track_end(cancelled), Tick::Cancelled);
}

#[test]
fn a_long_pause_ends_the_watch() {
    let mut monitor = TrackEndMonitor::new(200_000_000);
    let mut ticks = 0;
    loop {
        ticks += 1;
        match monitor.wait_for_track_end(look(50_000, PlaybackStatus::Paused)) {
            Tick::Again => {}
            tick => {
                assert_eq!(tick, Tick::PausedTooLong);
                break;
            }
        }
    }
    assert_eq!(ticks, 121);
}

#[test]
fn calls_that_fail_say_why() {
    assert_eq!(dbus_send_raw(true, b"reply \xff", b"").unwrap(), "reply \u{fffd}");
    let words = |outcome: Result<(), DbusError>| outcome.unwrap_err().message();
    assert_eq!(
        words(dbus_send_raw(false, b"", b"  no bus \n").map(|_| ())),
        "D-Bus call failed: no bus"
    );
    assert!(method_outcome("Pause", true, b"x").is_ok());
    assert_eq!(words(method_outcome("Pause", false, b"gone\n")), "Spotify Pause failed: gone\n");
    assert!(seek_outcome(true, b"x").is_ok());
    assert_eq!(words(seek_outcome(false, b"gone")), "Seek to start failed: gone");
}

#[test]
fn waits_and_watches_come_to_an_end() {
    assert!(matches!(Waiting::Started.outcome(), Some(Ok(()))));
    assert!(Waiting::Again.outcome().is_none());
    let words = |outcome: Option<Result<(), DbusError>>| outcome.unwrap().unwrap_err().message();
    assert_eq!(
        words(Waiting::TimedOut.outcome()),
        "Timed out waiting for Spotify to start playing the track"
    );
    assert!(Tick::Again.outcome().is_none());
    assert!(matches!(Tick::Ended.outcome(), Some(Ok(()))));
    assert!(matches!(Tick::EndedAfterFlush.outcome(), Some(Ok(()))));
    assert_eq!(words(Tick::Cancelled.outcome()), "Capture cancelled");
    assert_eq!(
        words(Tick::PausedTooLong.outcome()),
        "Spotify paused for over 60 seconds; capture stopped"
    );
}

#[test]
fn the_last_line_with_a_key_decides() {
    let reply = "string \"mpris:trackid\"\nvariant string \"/a\"\n\
                 string \"xesam:title\"\nvariant string \"First\"\n\
                 string \"xesam:title\"\nvariant string \"Second\"\n\
                 string \"mpris:length\"\nvariant uint64 7\n\
                 string \"mpris:length\"\nvariant uint64 x\n";
    let meta = parse_metadata(reply).unwrap();
    assert_eq!(meta.track_id, "/a");
    assert_eq!(meta.title, "Second");
    assert_eq!(meta.duration_us, 7);
    assert_eq!(meta.album, "");
    assert_eq!(meta.artist, "");
}

#[test]
fn a_value_stands_within_five_lines_of_its_key() {
    let reply = |gap: &str| format!("\"mpris:trackid\"\n{gap}string \"/a\"\n");
    assert_eq!(parse_metadata(&reply("\n\n\n\n")).unwrap().track_id, "/a");
    assert!(parse_metadata(&reply("\n\n\n\n\n")).is_err());
    // A value that is not closed ends the search.
    assert!(parse_metadata(&reply("variant string \"open\n")).is_err());
}

#[test]
fn a_track_that_stays_where_it_is_has_ended() {
    let mut monitor = TrackEndMonitor::new(200_000_000);
    let stalled = look(50_000, PlaybackStatus::Playing);
    // The first look finds the track there; ten more are borne.
    for _ in 0..11 {
        assert_eq!(monitor.wait_for_track_end(stalled), Tick::Again);
    }
    assert_eq!(monitor.wait_for_track_end(stalled), Tick::Ended);
}

#[test]
fn a_track_that_goes_on_has_not_stalled() {
    let mut monitor = TrackEndMonitor::new(200_000_000);
    for step in 1..=10 {
        for _ in 0..11 {
            let tick = monitor.wait_for_track_end(look(step * 1000, PlaybackStatus::Playing));
            assert_eq!(tick, Tick::Again);
        }
    }
    // At the very beginning, and while Spotify is paused, nothing stalls.
    let mut monitor = TrackEndMonitor::new(200_000_000);
    for _ in 0..50 {
        assert_eq!(monitor.wait_for_track_end(look(0, PlaybackStatus::Playing)), Tick::Again);
    }
    for _ in 0..50 {
        assert_eq!(monitor.wait_for_track_end(look(50_000, PlaybackStatus::Paused)), Tick::Again);
    }
    assert_eq!(monitor.stalled_count, 0);
}

#[test]
fn the_order_of_entries_and_other_entries_change_nothing() {
    let entry = |key: &str, value: &str| {
        format!(
            "         dict entry(\n            string \"{key}\"\n            \
             variant               {value}\n         )\n"
        )
    };
    let id = entry("mpris:trackid", "string \"/com/spotify/track/a\"");
    let length = entry("mpris:length", "uint64 7");
    let title = entry("xesam:title", "string \"A \"quoted\" title\"");
    let artist = entry(
        "xesam:artist",
        "array [\n                  string \"First\"\n                  string \"Second\"\n               ]",
    );
    let rating = entry("xesam:autoRating", "double 0.5");
    let reply = |entries: &[&String]| {
        let entries: String = entries.iter().map(|entry| entry.as_str()).collect();
        parse_metadata(&format!("method return\n   variant       array [\n{entries}      ]\n")).unwrap()
    };
    for entries in [
        vec![&id, &length, &title, &artist],
        vec![&artist, &title, &length, &id],
        vec![&rating, &title, &id, &rating, &artist, &length, &rating],
    ] {
        let meta = reply(&entries);
        assert_eq!(meta.track_id, "/com/spotify/track/a");
        assert_eq!(meta.duration_us, 7);
        assert_eq!(meta.title, "A \"quoted\" title");
        assert_eq!(meta.artist, "First");
        assert_eq!(meta.album, "");
    }
}
