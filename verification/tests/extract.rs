use base64::Engine;
use spotcapture::extract::{
    add_embedded, add_mentioned, collection_of, collection_of_link, extract_from_json,
    extract_tracks, read_page, CollectionKind, ExtractError, Listing,
    TrackList,
};
use spotcapture::json::parse_text;
use spotcapture::links::Link;

const ID: &str = "4uLU6hMCjMI75M1A2tKUQC";

#[test]
fn links_name_collections() {
    let album = collection_of("https://open.spotify.com/album/abc?si=1").unwrap();
    assert_eq!(album.kind, CollectionKind::Album);
    assert_eq!(album.first_page(), "https://api.spotify.com/v1/albums/abc/tracks?limit=50");
    let list = collection_of("https://open.spotify.com/intl-de/playlist/xyz/").unwrap();
    assert_eq!(list.kind, CollectionKind::Playlist);
    assert_eq!(list.first_page(), "https://api.spotify.com/v1/playlists/xyz/tracks?limit=50");
}

#[test]
fn other_links_name_none() {
    assert!(matches!(collection_of("nothing"), Err(ExtractError::InvalidUrl(_))));
    assert!(matches!(
        collection_of("https://example.com/album/abc"),
        Err(ExtractError::WrongHost)
    ));
    let error = collection_of("https://open.spotify.com/track/abc").unwrap_err();
    assert!(matches!(error, ExtractError::Unsupported));
    assert_eq!(error.message(), "Unsupported URL. Must be an album or playlist.");
    let link = Link {
        scheme: "https".into(),
        host: Some("open.spotify.com".into()),
        path: "/a/b/album/c".into(),
        pairs: vec![],
    };
    assert!(matches!(collection_of_link(&link), Err(ExtractError::Unsupported)));
}

#[test]
fn pages_give_lines_and_the_next_page() {
    let album = parse_text(
        r#"{"items":[{"id":"1","name":"One","artists":[{"name":"A"},{"name":"B"}]},
        {"name":"no id"},{"id":"2"}],"next":"https://api.spotify.com/next"}"#,
    )
    .unwrap();
    let page = read_page(CollectionKind::Album, Some(200), Some(&album)).unwrap();
    assert_eq!(
        page.lines,
        ["spotify:track:1|One - A", "spotify:track:2|Unknown Track - Unknown Artist"]
    );
    assert_eq!(page.next.as_deref(), Some("https://api.spotify.com/next"));

    let list = parse_text(r#"{"items":[{"track":{"id":"3","name":"Three"}},{"id":"4"}]}"#).unwrap();
    let page = read_page(CollectionKind::Playlist, Some(200), Some(&list)).unwrap();
    assert_eq!(
        page.lines,
        ["spotify:track:3|Three - Unknown Artist", "spotify:track:4|Unknown Track - Unknown Artist"]
    );
    assert_eq!(page.next, None);
}

#[test]
fn pages_without_items_are_of_no_use() {
    let empty = parse_text("{}").unwrap();
    let good = parse_text(r#"{"items":[]}"#).unwrap();
    assert!(read_page(CollectionKind::Album, Some(200), Some(&empty)).is_none());
    assert!(read_page(CollectionKind::Album, Some(404), Some(&good)).is_none());
    assert!(read_page(CollectionKind::Album, None, Some(&good)).is_none());
    assert!(read_page(CollectionKind::Album, Some(200), None).is_none());
    assert!(read_page(CollectionKind::Album, Some(200), Some(&good)).unwrap().lines.is_empty());
}

#[test]
fn pages_are_listed_one_after_the_other() {
    let album = collection_of("https://open.spotify.com/album/abc").unwrap();
    match Listing::begin(&album, true) {
        Listing::Request(url) => assert_eq!(url, album.first_page()),
        other => panic!("{other:?}"),
    }
    assert!(matches!(Listing::begin(&album, false), Listing::Scrape));
    let page = |text: &str| {
        read_page(CollectionKind::Album, Some(200), parse_text(text).as_ref())
    };
    match Listing::after(&page(r#"{"items":[],"next":"there"}"#)) {
        Listing::Request(url) => assert_eq!(url, "there"),
        other => panic!("{other:?}"),
    }
    assert!(matches!(Listing::after(&page(r#"{"items":[],"next":null}"#)), Listing::Complete));
    assert!(matches!(Listing::after(&page("{}")), Listing::Scrape));
}

fn sorted(list: &TrackList) -> Vec<String> {
    let mut lines = list.lines();
    lines.sort();
    lines
}

#[test]
fn lists_name_each_track_once() {
    let mut list = TrackList::new();
    list.insert("a".into(), "first".into());
    list.insert("b".into(), "other".into());
    list.insert("a".into(), "second".into());
    assert!(list.contains("a") && !list.contains("c"));
    assert_eq!(sorted(&list), ["spotify:track:a|second", "spotify:track:b|other"]);
}

#[test]
fn documents_are_searched_everywhere() {
    let document = parse_text(&format!(
        r#"{{"list":[{{"uri":"spotify:track:x","name":"X"}},{{"uri":"spotify:album:y","name":"Y"}},
        {{"id":"{ID}","name":"By id","inner":{{"uri":"spotify:track:z","name":"Z"}}}},
        {{"id":"short","name":"Short"}},{{"uri":"spotify:track:unnamed"}}]}}"#
    ))
    .unwrap();
    let mut list = TrackList::new();
    extract_from_json(&document, &mut list);
    assert_eq!(
        sorted(&list),
        [format!("spotify:track:{ID}|By id"), "spotify:track:x|X".into(), "spotify:track:z|Z".into()]
    );
}

#[test]
fn pages_of_the_web_site_are_read() {
    let document = format!(r#"{{"uri":"spotify:track:{ID}","name":"Named"}}"#);
    let encoded = base64::engine::general_purpose::STANDARD_NO_PAD.encode(document);
    assert!(encoded.starts_with("eyJ"));
    let page = format!(
        "<script>{encoded}</script> <a href=\"https://open.spotify.com/track/{ID}\">\
         <a href=\"https://open.spotify.com/track/AAAAAAAAAAAAAAAAAAAAAA\"> spotify:track:short\
         spotify:track:BBBBBBBBBBBBBBBBBBBBBB <script>eyJ???</script>"
    );
    let list = extract_tracks(&page);
    assert_eq!(
        sorted(&list),
        [
            format!("spotify:track:{ID}|Named"),
            "spotify:track:AAAAAAAAAAAAAAAAAAAAAA|Unknown Track".into(),
            "spotify:track:BBBBBBBBBBBBBBBBBBBBBB|Unknown Track".into(),
        ]
    );
    assert!(extract_tracks("nothing").lines().is_empty());
}

#[test]
fn mentions_keep_the_names_of_documents() {
    let mut list = TrackList::new();
    let document = base64::engine::general_purpose::STANDARD_NO_PAD
        .encode(format!(r#"{{"id":"{ID}","name":"Named"}}"#));
    let inner = document.strip_prefix("eyJ").unwrap().to_string();
    add_embedded(&vec![vec![Some(String::new()), Some(inner)]], &mut list);
    assert_eq!(list.lines(), [format!("spotify:track:{ID}|Named")]);
    add_mentioned(
        &vec![
            vec![Some(String::new()), Some(ID.into()), None],
            vec![Some(String::new()), None, Some("second group".into())],
            vec![Some(String::new()), None, None],
        ],
        &mut list,
    );
    assert_eq!(
        sorted(&list),
        [
            format!("spotify:track:{ID}|Named"),
            "spotify:track:second group|Unknown Track".into(),
        ]
    );
}
