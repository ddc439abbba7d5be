use spotcapture::json::{parse_bytes, parse_text, Json};
use spotcapture::links::Link;
use spotcapture::metadata::{
    artwork, artwork_file_name, check_artwork_response, check_response, fetch, is_image_link,
    names, safe_filename, track_endpoint, track_id, track_of_link, ArtworkBuffer, ArtworkError,
    FetchError, TrackIdError, TrackInfo, ARTWORK_LIMIT,
};

#[test]
fn parse_tracks_rejects_other_hosts_and_collections() {
    let id = "4uLU6hMCjMI75M1A2tKUQC";
    assert_eq!(track_id(&format!("https://open.spotify.com/intl-bn/track/{id}?si=abc")).unwrap(), id);
    assert_eq!(track_id(&format!("spotify:track:{id}")).unwrap(), id);
    assert!(track_id(&format!("https://evil.example/track/{id}")).is_err());
    assert!(track_id(&format!("https://open.spotify.com/album/{id}")).is_err());
    assert!(track_id("../../secret").is_err());
}

#[test]
fn filenames_cannot_escape_output_dir() {
    assert_eq!(safe_filename("../a/b\\c\n"), "_a_b_c_");
    assert_eq!(safe_filename("..."), "Track");
    assert_eq!(safe_filename("বাংলা গান"), "বাংলা গান");
}

#[test]
fn unicode_filenames_fit_linux_component_limit_without_splitting_characters() {
    for input in ["গান".repeat(100), "🎵".repeat(100), "a".repeat(99) + "🎵"] {
        let name = safe_filename(&input);
        assert!(name.len() <= 100);
        assert!(input.starts_with(&name));
        let component = format!("{name} - {name} (9999).flac");
        assert!(component.len() <= 255);
    }
}

#[test]
fn file_names_are_cut_and_trimmed_exactly() {
    assert_eq!(safe_filename(&"a".repeat(150)), "a".repeat(100));
    assert_eq!(safe_filename(&("a".repeat(99) + "🎵")), "a".repeat(99));
    assert_eq!(safe_filename("  .hidden. "), "hidden");
    assert_eq!(safe_filename("a*b?c\"d<e>f|g:h"), "a_b_c_d_e_f_g_h");
    assert_eq!(safe_filename("a\u{85}b\u{7f}c"), "a_b_c");
    assert_eq!(safe_filename(""), "Track");
    // White space that is cut off at the limit is dropped too.
    assert_eq!(safe_filename(&("a".repeat(99) + " b")), "a".repeat(99));
}

#[test]
fn each_link_that_names_no_track_has_its_reason() {
    let id = "4uLU6hMCjMI75M1A2tKUQC";
    let error = |input: &str| track_id(input).expect_err("no track");
    assert!(matches!(error("https://"), TrackIdError::InvalidUrl(_)));
    assert!(matches!(
        error(&format!("https://example.com/track/{id}")),
        TrackIdError::WrongHost
    ));
    assert!(matches!(
        error(&format!("https://open.spotify.com/playlist/{id}")),
        TrackIdError::NotTrack
    ));
    assert!(matches!(
        error("https://open.spotify.com/track/short"),
        TrackIdError::InvalidId
    ));
    assert!(matches!(error("spotify:track:"), TrackIdError::InvalidId));
    assert_eq!(
        TrackIdError::InvalidId.message(),
        "Expected a Spotify track URL, URI, or 22-character track ID"
    );
    assert_eq!(TrackIdError::NoPath.message(), "Invalid track link");
    assert_eq!(track_id(id).unwrap(), id);
    assert_eq!(track_id(&format!("  {id}\n")).unwrap(), id);
}

#[test]
fn a_track_is_named_in_several_forms() {
    let id = "4uLU6hMCjMI75M1A2tKUQC";
    for form in [
        id.to_string(),
        format!("spotify:track:{id}"),
        format!("https://open.spotify.com/track/{id}"),
        format!("https://open.spotify.com/intl-de/track/{id}"),
    ] {
        assert_eq!(track_id(&form).unwrap(), id);
        assert_eq!(track_id(&format!(" \t\u{2003}{form}\r\n ")).unwrap(), id);
    }
    assert!(matches!(track_id(" \n"), Err(TrackIdError::InvalidId)));
}

fn link(host: Option<&str>, path: &str) -> Link {
    Link {
        scheme: "https".into(),
        host: host.map(|h| h.to_string()),
        path: path.into(),
        pairs: vec![],
    }
}

#[test]
fn parsed_links_name_tracks() {
    let spotify = Some("open.spotify.com");
    assert_eq!(track_of_link(&link(spotify, "/track/abc")).unwrap(), "abc");
    assert_eq!(track_of_link(&link(spotify, "/intl-de/track/abc")).unwrap(), "abc");
    assert!(matches!(
        track_of_link(&link(spotify, "/de/track/abc")),
        Err(TrackIdError::NotTrack)
    ));
    assert!(matches!(track_of_link(&link(spotify, "opaque")), Err(TrackIdError::NoPath)));
    assert!(matches!(
        track_of_link(&link(None, "/track/abc")),
        Err(TrackIdError::WrongHost)
    ));
}

#[test]
fn names_are_joined() {
    let artists = parse_text(r#"[{"name":"A"},{"x":1},{"name":"B"}]"#).unwrap();
    assert_eq!(names(&artists).as_deref(), Some("A, B"));
    assert_eq!(names(&parse_text("[]").unwrap()), None);
    assert_eq!(names(&parse_text("7").unwrap()), None);
}

#[test]
fn web_data_become_tags() {
    let data = parse_bytes(
        br#"{"name":"Song","artists":[{"name":"A"},{"name":"B"}],"duration_ms":1234,
        "track_number":3,"disc_number":1,"album":{"name":"Album","release_date":"2020-01-02",
        "images":[{"url":"https://i.scdn.co/image/x"},{"url":"other"}]}}"#,
    )
    .unwrap();
    let fetched = fetch("abc", &data);
    let tags = fetched.info.tags;
    assert_eq!(tags.title.as_deref(), Some("Song"));
    assert_eq!(tags.artist.as_deref(), Some("A, B"));
    assert_eq!(tags.album.as_deref(), Some("Album"));
    assert_eq!(tags.date.as_deref(), Some("2020-01-02"));
    assert_eq!(tags.track.as_deref(), Some("3"));
    assert_eq!(tags.disc.as_deref(), Some("1"));
    assert_eq!(fetched.info.duration_ms, Some(1234));
    assert_eq!(fetched.artwork_url.as_deref(), Some("https://i.scdn.co/image/x"));
}

#[test]
fn tracks_always_have_a_title() {
    let empty = parse_text(r#"{"name":""}"#).unwrap();
    assert_eq!(fetch("abc", &empty).info.tags.title.as_deref(), Some("abc"));
    assert_eq!(fetch("abc", &Json::Null).info.tags.title.as_deref(), Some("abc"));
    assert_eq!(TrackInfo::fallback("abc").tags.title.as_deref(), Some("abc"));
}

#[test]
fn json_is_parsed_by_its_rules() {
    assert!(parse_text("{").is_none());
    assert!(parse_bytes(b"[1,]").is_none());
    let numbers = parse_text("[1, -1, 1.5, 18446744073709551615]").unwrap();
    let numbers: Vec<Option<u64>> =
        numbers.as_array().unwrap().iter().map(|n| n.as_number()).collect();
    assert_eq!(numbers, [Some(1), None, None, Some(u64::MAX)]);
    let twice = parse_text(r#"{"a":"first","a":"second"}"#).unwrap();
    assert_eq!(twice.text_at("a").map(|s| s.as_str()), Some("second"));
    assert!(twice.get("b").is_none());
    assert!(parse_text("true").unwrap().as_text().is_none());
}

#[test]
fn responses_of_the_web_api_are_checked() {
    assert_eq!(check_response(200, None), Ok(()));
    assert_eq!(check_response(299, None), Ok(()));
    assert_eq!(check_response(404, None), Err(FetchError::Http(404)));
    assert_eq!(check_response(429, Some("30")), Err(FetchError::RateLimited(Some(30))));
    assert_eq!(check_response(429, Some("soon")), Err(FetchError::RateLimited(None)));
    assert_eq!(check_response(429, None), Err(FetchError::RateLimited(None)));
    assert_eq!(
        FetchError::RateLimited(Some(30)).message(""),
        "rate limited; retry after 30 seconds"
    );
    assert_eq!(FetchError::RateLimited(None).message(""), "rate limited; retry later");
    assert_eq!(FetchError::Http(404).message("404 Not Found"), "HTTP 404 Not Found");
    assert_eq!(track_endpoint("abc"), "https://api.spotify.com/v1/tracks/abc");
}

#[test]
fn covers_come_from_the_image_host() {
    assert!(artwork("https://i.scdn.co/image/x").is_ok());
    assert!(matches!(artwork("http://i.scdn.co/image/x"), Err(ArtworkError::WrongHost)));
    assert!(matches!(artwork("https://example.com/x"), Err(ArtworkError::WrongHost)));
    assert!(matches!(artwork("no link"), Err(ArtworkError::InvalidUrl(_))));
    assert!(is_image_link(&link(Some("i.scdn.co"), "/image/x")));
    assert!(!is_image_link(&link(Some("i.scdn.co.example"), "/image/x")));
    assert!(check_artwork_response(200).is_ok());
    assert!(matches!(check_artwork_response(404), Err(ArtworkError::Refused)));
    assert_eq!(ArtworkError::TooLarge.message(), "Artwork exceeds 8 MiB");
    assert_eq!(artwork_file_name(12, 345), ".artwork-12-345.image");
}

#[test]
fn covers_are_limited_and_must_be_images() {
    let mut buffer = ArtworkBuffer::new();
    assert!(buffer.push(&[0xff]).is_ok());
    assert!(buffer.push(&[0xd8, 1, 2]).is_ok());
    assert_eq!(buffer.finish().unwrap(), [0xff, 0xd8, 1, 2]);

    let mut png = ArtworkBuffer::new();
    assert!(png.push(b"\x89PNG\r\n\x1a\n...").is_ok());
    assert!(png.finish().is_ok());

    let mut other = ArtworkBuffer::new();
    assert!(other.push(b"GIF89a").is_ok());
    assert!(matches!(other.finish(), Err(ArtworkError::Unsupported)));

    let mut large = ArtworkBuffer::new();
    assert!(large.push(&vec![0xff; ARTWORK_LIMIT]).is_ok());
    assert!(matches!(large.push(&[0]), Err(ArtworkError::TooLarge)));
}
