//! Tests for the pure byte-level components: case-insensitive matching,
//! tag classification, chunk reading and error messages.

use xml_reader::ascii::{contains_ignore_case, iter_eq_ignore_case, key_matches, lower_byte};
use xml_reader::extract::read_chunk;
use xml_reader::tags::{classify_tag, extract_tag_name_from_bytes, TagKind};
use xml_reader::NavError;

#[test]
fn lower_byte_folds_ascii_letters_only() {
    assert_eq!(lower_byte(b'A'), b'a');
    assert_eq!(lower_byte(b'Z'), b'z');
    assert_eq!(lower_byte(b'a'), b'a');
    assert_eq!(lower_byte(b'@'), b'@'); // one before 'A'
    assert_eq!(lower_byte(b'['), b'['); // one after 'Z'
    assert_eq!(lower_byte(b'3'), b'3');
    assert_eq!(lower_byte(0xFF), 0xFF);
}

#[test]
fn key_matches_is_exact_and_case_insensitive() {
    assert!(key_matches(b"GUID", b"guid"));
    assert!(key_matches(b"Id", b"id"));
    assert!(!key_matches(b"id", b"guid"));
    assert!(!key_matches(b"guidx", b"guid"));
    assert!(!key_matches(b"gui", b"guid"));
    assert!(key_matches(b"", b""));
}

#[test]
fn contains_ignore_case_finds_substrings() {
    assert!(contains_ignore_case(b"HelloWorld", b"oworl"));
    assert!(contains_ignore_case(b"HelloWorld", b"OWORL"));
    assert!(contains_ignore_case(b"abc", b""));
    assert!(contains_ignore_case(b"", b""));
    assert!(!contains_ignore_case(b"", b"a"));
    assert!(!contains_ignore_case(b"ab", b"abc"));
    assert!(!contains_ignore_case(b"HelloWorld", b"worlds"));
}

#[test]
fn iter_eq_ignore_case_compares_common_prefix() {
    assert!(iter_eq_ignore_case(b"abc", b"ABC"));
    assert!(iter_eq_ignore_case(b"abc", b"ABCD")); // zip stops at the shorter
    assert!(!iter_eq_ignore_case(b"abd", b"ABC"));
}

#[test]
fn classify_tag_kinds() {
    let open = classify_tag(b"<Item attr=\"1\">").unwrap();
    assert_eq!(open.0, "Item");
    assert_eq!(open.1, TagKind::Open);
    assert_eq!(open.2, 15);

    let close = classify_tag(b"</Root>").unwrap();
    assert_eq!(close.0, "Root");
    assert_eq!(close.1, TagKind::Close);
    assert_eq!(close.2, 7);

    let empty = classify_tag(b"<b/>").unwrap();
    assert_eq!(empty.0, "b");
    assert_eq!(empty.1, TagKind::Empty);
    assert_eq!(empty.2, 4);
}

#[test]
fn classify_tag_skips_non_elements() {
    assert!(classify_tag(b"<?xml version=\"1.0\"?>").is_none());
    assert!(classify_tag(b"<!-- comment -->").is_none());
    assert!(classify_tag(b"<>").is_none()); // shorter than three bytes
}

#[test]
fn extract_tag_name_stops_at_delimiters() {
    assert_eq!(extract_tag_name_from_bytes(b"name attr=\"x\""), "name");
    assert_eq!(extract_tag_name_from_bytes(b"Root>"), "Root");
    assert_eq!(extract_tag_name_from_bytes(b"a/"), "a");
    assert_eq!(extract_tag_name_from_bytes(b"plain"), "plain");
}

#[test]
fn read_chunk_clips_at_document_end() {
    let doc = b"abcdef";
    assert_eq!(read_chunk(doc, 0, 3), "abc");
    assert_eq!(read_chunk(doc, 4, 10), "ef"); // short read at the end
    assert_eq!(read_chunk(doc, 6, 4), ""); // at the end
    assert_eq!(read_chunk(doc, 100, 4), ""); // past the end
}

#[test]
fn read_chunk_decodes_lossily() {
    let doc = [b'a', 0xFF, b'b'];
    let text = read_chunk(&doc, 0, 3);
    assert_eq!(text, "a\u{FFFD}b"); // the invalid byte is replaced, not fatal
}

#[test]
fn error_messages_are_distinct() {
    let errors = [
        NavError::EmptyFile,
        NavError::EmptyRoot,
        NavError::NoChildren,
        NavError::RootExited,
        NavError::NoLastChild,
        NavError::DepthOutOfRange,
        NavError::AncestorSeekFailed,
        NavError::ScanFailed { pos: 7 },
    ];
    for (i, a) in errors.iter().enumerate() {
        assert!(!a.message().is_empty());
        for (j, b) in errors.iter().enumerate() {
            if i != j {
                assert_ne!(a.message(), b.message());
            }
        }
    }
    assert_eq!(
        NavError::EmptyRoot.message(),
        "Root element is empty (no children)"
    );
}
