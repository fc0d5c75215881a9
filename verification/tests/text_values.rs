//! The byte-string and value-parsing utilities on concrete inputs.

use onvif_cam::text::contains_sub;
use onvif_cam::text::parse_bool;
use onvif_cam::text::parse_u32;
use onvif_cam::text::parse_u8_num;
use onvif_cam::text::split_bytes;

#[test]
fn numbers_parse_exactly() {
    assert_eq!(parse_u32(b"1920"), Some(1920));
    assert_eq!(parse_u32(b"0"), Some(0));
    assert_eq!(parse_u32(b"007"), Some(7));
    assert_eq!(parse_u32(b"4294967295"), Some(4294967295));
}

#[test]
fn numbers_out_of_range_or_malformed_are_rejected() {
    assert_eq!(parse_u32(b"4294967296"), None);
    assert_eq!(parse_u32(b""), None);
    assert_eq!(parse_u32(b"12a"), None);
    assert_eq!(parse_u32(b"-1"), None);
    assert_eq!(parse_u8_num(b"255"), Some(255));
    assert_eq!(parse_u8_num(b"256"), None);
}

#[test]
fn booleans_parse_strictly() {
    assert_eq!(parse_bool(b"true"), Some(true));
    assert_eq!(parse_bool(b"false"), Some(false));
    assert_eq!(parse_bool(b"True"), None);
    assert_eq!(parse_bool(b""), None);
}

#[test]
fn substring_search_edges() {
    assert!(contains_sub(b"abc", b""));
    assert!(contains_sub(b"abc", b"abc"));
    assert!(contains_sub(b"xabcx", b"abc"));
    assert!(!contains_sub(b"ab", b"abc"));
    assert!(!contains_sub(b"", b"a"));
}

#[test]
fn splitting_keeps_empty_chunks() {
    let got = split_bytes(b"a  b", 32);
    assert_eq!(got, vec![b"a".to_vec(), b"".to_vec(), b"b".to_vec()]);
    let got = split_bytes(b"", 32);
    assert_eq!(got, vec![b"".to_vec()]);
    let got = split_bytes(b"one", 32);
    assert_eq!(got, vec![b"one".to_vec()]);
}
