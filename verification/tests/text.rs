use spotcapture::text::{
    chars_of, contains, is_alphanumeric, is_control, is_hex, is_white_space, join, lines_of,
    list, lower_case, number, parse_number, same_ignoring_case, size_of, split_at, starts_with,
    string_of, strip_prefix, strip_suffix, trim, width_of, without_suffixes, words_of, Charset,
};

fn strings(runs: Vec<Vec<char>>) -> Vec<String> {
    runs.iter().map(|run| string_of(run)).collect()
}

#[test]
fn characters_are_classified_as_in_std() {
    for c in '\0'..=char::MAX {
        assert_eq!(is_white_space(c), c.is_whitespace(), "{c:?}");
        assert_eq!(is_control(c), c.is_control(), "{c:?}");
        assert_eq!(width_of(c), c.len_utf8(), "{c:?}");
    }
}

#[test]
fn texts_are_taken_apart_as_in_std() {
    for s in ["", "a", "\n", "a\nb", "a\r\nb\n", "a\n\nb\r", " x  y\t z ", "é🎵\u{2003}ß", "\r\n"] {
        let cs = chars_of(s);
        assert_eq!(string_of(&cs), s);
        assert_eq!(strings(lines_of(&cs)), s.lines().collect::<Vec<_>>());
        assert_eq!(strings(words_of(&cs)), s.split_whitespace().collect::<Vec<_>>());
        assert_eq!(string_of(trim(Charset::White, &cs)), s.trim());
        assert_eq!(
            strings(split_at(Charset::One('\n'), &cs)),
            s.split('\n').collect::<Vec<_>>()
        );
        assert_eq!(size_of(s), s.len());
    }
}

#[test]
fn parts_of_texts_are_found() {
    let cs = chars_of("spotify:track:x");
    assert_eq!(strip_prefix(&cs, "spotify:").map(string_of).as_deref(), Some("track:x"));
    assert_eq!(strip_suffix(&cs, ":x").map(string_of).as_deref(), Some("spotify:track"));
    assert!(strip_prefix(&cs, "x").is_none());
    assert!(starts_with(&cs, "") && contains(&cs, "track") && !contains(&cs, "trackx"));
    let cs = chars_of("320kbpskbps");
    assert_eq!(string_of(without_suffixes(&cs, "kbps")), "320");
}

#[test]
fn numbers_are_written_and_read() {
    for n in [0, 9, 10, 4294967296, u64::MAX] {
        assert_eq!(number(n as u128), n.to_string());
        assert_eq!(parse_number(&chars_of(&n.to_string()), u64::MAX), Some(n));
    }
    assert_eq!(number(u128::MAX), u128::MAX.to_string());
    for s in ["", "+", "-1", "+5", "007", "1a", "18446744073709551616", "٣"] {
        assert_eq!(parse_number(&chars_of(s), u64::MAX), s.parse::<u64>().ok(), "{s}");
    }
    assert_eq!(parse_number(&chars_of("256"), 255), None);
}

#[test]
fn letters_and_digits_are_told() {
    assert!(is_alphanumeric(&chars_of("aZ09")) && !is_alphanumeric(&chars_of("é")));
    assert!(is_hex(&chars_of("09afAF")) && !is_hex(&chars_of("g")));
    assert_eq!(string_of(&lower_case(&chars_of("AbÉ"))), "abÉ");
    assert!(same_ignoring_case("Spotify", "sPOTIFY") && !same_ignoring_case("a", "ab"));
    assert_eq!(join(&list(&["a", "b"]), ", "), "a, b");
    assert_eq!(join(&list(&[]), ", "), "");
}
