use spotcapture::events::{error, login_done, login_url, status};
use spotcapture::json::parse_text;

#[test]
fn events_are_json_objects() {
    assert_eq!(status("Working"), r#"{"message":"Working","type":"status"}"#);
    assert_eq!(error("a \"b\""), r#"{"message":"a \"b\"","type":"error"}"#);
    assert_eq!(
        login_done(),
        r#"{"message":"Metadata connected. You can now download tracks with artwork and tags.","type":"done"}"#
    );
    assert_eq!(
        login_url("https://x/?a=b"),
        r#"{"message":"Open this URL to sign in with Spotify","type":"login_url","url":"https://x/?a=b"}"#
    );
}

#[test]
fn events_take_one_line_and_read_back() {
    for message in ["", "two\nlines\r\n", "quote \" backslash \\", "\u{0}\u{1f}\u{7f}", "গান 🎵 \u{2028}"] {
        let line = status(message);
        assert!(!line.contains('\n'));
        let event = parse_text(&line).unwrap();
        assert_eq!(event.text_at("message").map(|s| s.as_str()), Some(message));
        assert_eq!(event.text_at("type").map(|s| s.as_str()), Some("status"));
    }
}
