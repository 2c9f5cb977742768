use sref_core::error::CoreError;
use sref_core::resolve::{decode_bytes, detect_encoding, preview, split_lines};
use sref_core::textutil::utf8_is_valid;

#[test]
fn detect_utf8_bom() {
    assert_eq!(detect_encoding(&[0xEF, 0xBB, 0xBF, b'a']), "utf-8");
    assert_eq!(detect_encoding(&[0xEF, 0xBB, 0xBF]), "utf-8");
}

#[test]
fn detect_utf16_boms() {
    assert_eq!(detect_encoding(&[0xFF, 0xFE, 0x41, 0x00]), "utf-16le");
    assert_eq!(detect_encoding(&[0xFE, 0xFF, 0x00, 0x41]), "utf-16be");
}

#[test]
fn detect_valid_utf8_without_bom() {
    assert_eq!(detect_encoding("héllo".as_bytes()), "utf-8");
    assert_eq!(detect_encoding(b"plain ascii"), "utf-8");
    assert_eq!(detect_encoding(b""), "utf-8");
}

#[test]
fn detect_defaults_to_windows_1252() {
    // 0xE9 alone is not valid UTF-8
    assert_eq!(detect_encoding(&[b'r', 0xE9, b's', b'u', b'm', 0xE9]), "windows-1252");
}

#[test]
fn decode_windows_1252_accented_byte() {
    let bytes = [b'r', 0xE9, b's', b'u', b'l', b't', b'a', b't'];
    let text = decode_bytes(&bytes, "windows-1252").unwrap();
    assert_eq!(text, "résultat");
    // detect then decode round-trips to the text an operator expects
    let tag = detect_encoding(&bytes);
    assert_eq!(decode_bytes(&bytes, &tag).unwrap(), "résultat");
}

#[test]
fn decode_windows_1252_euro_and_quotes() {
    let text = decode_bytes(&[0x80, 0x91, 0x92], "cp1252").unwrap();
    assert_eq!(text, "\u{20AC}\u{2018}\u{2019}");
}

#[test]
fn decode_latin9_revised_positions() {
    let text = decode_bytes(&[0xA4, 0xBC, 0xBD], "iso-8859-15").unwrap();
    assert_eq!(text, "\u{20AC}\u{0152}\u{0153}");
    let text2 = decode_bytes(&[0xE9], "latin1").unwrap();
    assert_eq!(text2, "é");
    let text3 = decode_bytes(&[0xE9], "latin9").unwrap();
    assert_eq!(text3, "é");
    let text4 = decode_bytes(&[0xE9], "iso-8859-1").unwrap();
    assert_eq!(text4, "é");
}

#[test]
fn decode_tags_match_case_insensitively() {
    assert_eq!(decode_bytes(&[0xE9], "Windows-1252").unwrap(), "é");
    assert_eq!(decode_bytes(&[0xE9], "CP1252").unwrap(), "é");
    assert_eq!(decode_bytes(b"abc", "UTF-8").unwrap(), "abc");
    assert_eq!(decode_bytes(b"abc", "Utf8").unwrap(), "abc");
}

#[test]
fn decode_utf8_strict_reports_malformed_input() {
    assert_eq!(decode_bytes(&[0xE9], "utf-8"), Err(CoreError::EncodingDecodeError));
    assert_eq!(decode_bytes("héllo".as_bytes(), "utf-8").unwrap(), "héllo");
}

#[test]
fn decode_strips_utf8_bom_for_any_tag() {
    let mut bytes = vec![0xEF, 0xBB, 0xBF];
    bytes.extend_from_slice(b"data");
    assert_eq!(decode_bytes(&bytes, "utf-8").unwrap(), "data");
    assert_eq!(decode_bytes(&bytes, "windows-1252").unwrap(), "data");
    assert_eq!(decode_bytes(&bytes, "anything-else").unwrap(), "data");
}

#[test]
fn decode_unknown_tag_is_lossy_not_failing() {
    let bytes = [b'a', 0xFF, b'b'];
    let text = decode_bytes(&bytes, "koi8-r").unwrap();
    assert_eq!(text, "a\u{FFFD}b");
}

#[test]
fn preview_takes_exactly_five_of_hundred_lines() {
    let mut content = String::new();
    for i in 0..100 {
        content.push_str(&format!("line {}\n", i));
    }
    let out = preview(content.as_bytes(), "utf-8", 5).unwrap();
    assert_eq!(out, "line 0\nline 1\nline 2\nline 3\nline 4");
    assert_eq!(out.lines().count(), 5);
}

#[test]
fn preview_with_fewer_lines_than_asked() {
    let out = preview(b"only\ntwo", "utf-8", 10).unwrap();
    assert_eq!(out, "only\ntwo");
    let empty = preview(b"", "utf-8", 5).unwrap();
    assert_eq!(empty, "");
}

#[test]
fn preview_strips_carriage_returns_like_a_line_reader() {
    let out = preview(b"a\r\nb\r\nc", "utf-8", 2).unwrap();
    assert_eq!(out, "a\nb");
}

#[test]
fn preview_propagates_strict_decode_errors() {
    assert_eq!(preview(&[0xE9], "utf-8", 3), Err(CoreError::EncodingDecodeError));
}

#[test]
fn split_lines_matches_line_reader_semantics() {
    let lines = split_lines("a\nb\n");
    assert_eq!(lines, vec!["a".to_string(), "b".to_string()]);
    let lines2 = split_lines("a\n\nb");
    assert_eq!(lines2, vec!["a".to_string(), String::new(), "b".to_string()]);
    let lines3 = split_lines("");
    assert!(lines3.is_empty());
    let lines4 = split_lines("tail\r");
    assert_eq!(lines4, vec!["tail\r".to_string()]);
}

#[test]
fn utf8_validator_edge_cases() {
    // well-formed sequences of every width
    assert!(utf8_is_valid(b""));
    assert!(utf8_is_valid(b"ascii"));
    assert!(utf8_is_valid("é".as_bytes()));
    assert!(utf8_is_valid("€".as_bytes()));
    assert!(utf8_is_valid("𝄞".as_bytes()));
    assert!(utf8_is_valid(&[0xF4, 0x8F, 0xBF, 0xBF])); // U+10FFFF
    // overlong encodings
    assert!(!utf8_is_valid(&[0xC0, 0x80]));
    assert!(!utf8_is_valid(&[0xE0, 0x80, 0x80]));
    assert!(!utf8_is_valid(&[0xF0, 0x80, 0x80, 0x80]));
    // surrogate range
    assert!(!utf8_is_valid(&[0xED, 0xA0, 0x80]));
    // above the last scalar
    assert!(!utf8_is_valid(&[0xF4, 0x90, 0x80, 0x80]));
    // truncated and stray continuation bytes
    assert!(!utf8_is_valid(&[0xC3]));
    assert!(!utf8_is_valid(&[0xE2, 0x82]));
    assert!(!utf8_is_valid(&[0x80]));
    assert!(!utf8_is_valid(&[0xFF]));
    // agreement with the standard library on each case
    for case in [
        &b"ascii"[..],
        &[0xC0, 0x80],
        &[0xED, 0xA0, 0x80],
        &[0xF4, 0x8F, 0xBF, 0xBF],
        &[0xF4, 0x90, 0x80, 0x80],
        &[0xE2, 0x82],
    ] {
        assert_eq!(utf8_is_valid(case), std::str::from_utf8(case).is_ok());
    }
}
