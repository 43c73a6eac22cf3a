//! End-to-end tests of the navigation operations over in-memory documents:
//! first/last child, search with progress and cancellation, xpath
//! reconstruction and ancestor lookup.

use xml_reader::cancel::{cancel_search, CancelToken};
use xml_reader::children::{get_first_child, get_last_child};
use xml_reader::extract::read_chunk;
use xml_reader::search::{search_node, search_node_internal};
use xml_reader::xpath::{find_parent, reconstruct_xpath, resolve_xpath};
use xml_reader::NavError;

const DOC: &[u8] = b"<root><a id=\"1\"/><b id=\"2\">x</b></root>";

#[test]
fn scenario_first_child() {
    let r = get_first_child(DOC).unwrap();
    assert!(r.found);
    assert_eq!(r.element_text, "<a id=\"1\"/>");
    assert_eq!(r.xpath, "/root/a (first)");
    assert_eq!(r.offset, 6);
    assert_eq!(r.line_number, 1);
}

#[test]
fn scenario_last_child() {
    let r = get_last_child(DOC).unwrap();
    assert!(r.found);
    assert_eq!(r.element_text, "<b id=\"2\">x</b>");
    assert_eq!(r.xpath, "/root/b (last)");
    assert_eq!(r.offset, 17);
}

#[test]
fn scenario_search_by_attribute() {
    let token = CancelToken::new();
    let mut progress: Vec<u64> = Vec::new();
    let r = search_node(DOC, "2", "id", 0, &token, &mut progress).unwrap();
    assert!(r.found);
    assert_eq!(r.element_text, "<b id=\"2\">x</b>");
    assert_eq!(r.xpath, "/root/b");
    assert_eq!(r.offset, 17);
    assert_eq!(r.line_number, 1);
    assert_eq!(progress.last(), Some(&100));
}

#[test]
fn first_and_last_agree_on_single_child() {
    let doc = b"<root><only>x</only></root>";
    let f = get_first_child(doc).unwrap();
    let l = get_last_child(doc).unwrap();
    assert_eq!(f.offset, l.offset);
    assert_eq!(f.element_text, l.element_text);
    assert_eq!(f.line_number, l.line_number);
    assert_eq!(f.xpath, "/root/only (first)");
    assert_eq!(l.xpath, "/root/only (last)");
}

#[test]
fn found_offset_reads_back_as_tag_start() {
    let token = CancelToken::new();
    let mut progress: Vec<u64> = Vec::new();
    let r = search_node(DOC, "2", "id", 0, &token, &mut progress).unwrap();
    assert!(r.found);
    let head = read_chunk(DOC, r.offset, 2);
    assert_eq!(head, "<b"); // '<' followed by the matched tag's local name
}

#[test]
fn resolve_path_matches_search_xpath() {
    let token = CancelToken::new();
    let mut progress: Vec<u64> = Vec::new();
    let r = search_node(DOC, "2", "id", 0, &token, &mut progress).unwrap();
    assert!(r.found);
    let resolved = resolve_xpath(DOC, r.offset, "b");
    assert_eq!(resolved, r.xpath); // "/root/b", no first/last marker to strip
}

#[test]
fn cancel_before_search_yields_not_found() {
    let token = CancelToken::new();
    cancel_search(&token);
    let mut progress: Vec<u64> = Vec::new();
    // The non-resetting entry checks the flag at its first iteration.
    let r = search_node_internal(DOC, "2", "id", 0, &token, &mut progress).unwrap();
    assert!(!r.found);
    assert_eq!(r.offset, 0);
    assert_eq!(r.xpath, "");
    assert_eq!(r.element_text, "");
    assert_eq!(progress.last(), Some(&100));
}

#[test]
fn search_node_resets_the_token_first() {
    let token = CancelToken::new();
    cancel_search(&token);
    let mut progress: Vec<u64> = Vec::new();
    // Every search invocation resets the flag, so this one runs and finds.
    let r = search_node(DOC, "2", "id", 0, &token, &mut progress).unwrap();
    assert!(r.found);
    assert!(!token.is_cancelled());
}

#[test]
fn ancestor_depth_zero_is_document_root() {
    // Offset 27 is the text node inside <b>.
    let r = find_parent(DOC, 27, 0).unwrap();
    assert!(r.found);
    assert_eq!(r.offset, 0);
    assert_eq!(r.xpath, "/root");
    assert_eq!(r.element_text.as_bytes(), DOC);
}

#[test]
fn ancestor_depth_one_is_enclosing_element() {
    let r = find_parent(DOC, 27, 1).unwrap();
    assert!(r.found);
    assert_eq!(r.offset, 17);
    assert_eq!(r.xpath, "/root/b");
    assert_eq!(r.element_text, "<b id=\"2\">x</b>");
}

#[test]
fn ancestor_depth_out_of_range_is_an_error() {
    let e = find_parent(DOC, 27, 5).unwrap_err();
    assert_eq!(e, NavError::DepthOutOfRange);
}

#[test]
fn no_match_returns_not_found_with_final_progress() {
    let token = CancelToken::new();
    let mut progress: Vec<u64> = Vec::new();
    let r = search_node(DOC, "zzz", "tag", 0, &token, &mut progress).unwrap();
    assert!(!r.found);
    assert_eq!(r.offset, 0);
    assert_eq!(r.xpath, "");
    assert_eq!(r.element_text, "");
    assert_eq!(progress.last(), Some(&100));
    // Coalesced: each emission rises, except the mandatory final 100.
    for w in progress.windows(2) {
        assert!(w[0] < w[1] || w[1] == 100);
    }
    assert!(progress.iter().all(|&p| p <= 100));
}

#[test]
fn match_element_text_reparses_cleanly() {
    let token = CancelToken::new();
    let mut progress: Vec<u64> = Vec::new();
    let r = search_node(DOC, "2", "id", 0, &token, &mut progress).unwrap();
    assert!(r.found);
    // The extracted fragment must be well-formed on its own.
    let mut reader = quick_xml::Reader::from_reader(r.element_text.as_bytes());
    let mut buf = Vec::new();
    loop {
        match reader.read_event_into(&mut buf) {
            Ok(quick_xml::events::Event::Eof) => break,
            Ok(_) => {}
            Err(e) => panic!("fragment failed to reparse: {:?}", e),
        }
        buf.clear();
    }
}

#[test]
fn search_is_case_insensitive_on_tag_names() {
    let token = CancelToken::new();
    let mut progress: Vec<u64> = Vec::new();
    let doc = b"<Root><Item/></Root>";
    let r = search_node(doc, "item", "tag", 0, &token, &mut progress).unwrap();
    assert!(r.found);
    assert_eq!(r.element_text, "<Item/>");
}

#[test]
fn search_any_checks_the_attribute_allow_list() {
    let token = CancelToken::new();
    let doc = b"<root><u eaid=\"k7\"/><v other=\"k7\"/></root>";
    let mut progress: Vec<u64> = Vec::new();
    let r = search_node(doc, "k7", "any", 0, &token, &mut progress).unwrap();
    assert!(r.found);
    assert_eq!(r.element_text, "<u eaid=\"k7\"/>"); // eaid is listed, other is not
    let mut progress2: Vec<u64> = Vec::new();
    let r2 = search_node(doc, "k7", "other", 0, &token, &mut progress2).unwrap();
    assert!(r2.found);
    assert_eq!(r2.element_text, "<v other=\"k7\"/>"); // named selector checks that key
}

#[test]
fn search_from_offset_skips_earlier_matches() {
    let token = CancelToken::new();
    let mut progress: Vec<u64> = Vec::new();
    // From offset 17 the scan starts at <b>; the id "1" lies before it.
    let r = search_node(DOC, "1", "id", 17, &token, &mut progress).unwrap();
    assert!(!r.found);
    let mut progress2: Vec<u64> = Vec::new();
    let r2 = search_node(DOC, "b", "tag", 17, &token, &mut progress2).unwrap();
    assert!(r2.found);
    assert_eq!(r2.offset, 17);
    assert_eq!(r2.xpath, "/b"); // ancestors above the seek point are not known here
}

#[test]
fn empty_query_matches_the_first_element() {
    let token = CancelToken::new();
    let mut progress: Vec<u64> = Vec::new();
    let r = search_node(DOC, "", "tag", 0, &token, &mut progress).unwrap();
    assert!(r.found);
    assert_eq!(r.offset, 0);
    assert_eq!(r.xpath, "/root");
    assert_eq!(r.element_text.as_bytes(), DOC);
}

#[test]
fn tokenizer_failure_is_a_scan_error() {
    // An unterminated comment cannot be tokenized.
    let token = CancelToken::new();
    let mut progress: Vec<u64> = Vec::new();
    let e = search_node(b"<root><!-- never closed", "zzz", "tag", 0, &token, &mut progress)
        .unwrap_err();
    assert!(matches!(e, NavError::ScanFailed { .. }));
}

#[test]
fn first_child_errors() {
    assert_eq!(get_first_child(b"<root/>").unwrap_err(), NavError::EmptyRoot);
    assert_eq!(
        get_first_child(b"<root></root>").unwrap_err(),
        NavError::NoChildren
    );
    assert_eq!(get_first_child(b"").unwrap_err(), NavError::NoChildren);
}

#[test]
fn last_child_errors() {
    assert_eq!(get_last_child(b"").unwrap_err(), NavError::EmptyFile);
    assert_eq!(
        get_last_child(b"<root></root>").unwrap_err(),
        NavError::RootExited
    );
    assert_eq!(
        get_last_child(b"no tags here").unwrap_err(),
        NavError::NoLastChild
    );
}

#[test]
fn reconstruct_xpath_of_document_start_is_root_slash() {
    assert_eq!(reconstruct_xpath(DOC, 0), "/");
    assert_eq!(reconstruct_xpath(DOC, 27), "/root/b");
    assert_eq!(resolve_xpath(DOC, 0, "root"), "//root");
}

#[test]
fn whitespace_before_a_child_is_stepped_over() {
    let doc = b"<root>\n  <a/>\n</root>";
    let r = get_first_child(doc).unwrap();
    assert!(r.found);
    assert_eq!(r.offset, 9); // the '<' of <a/>, past the indentation
    assert_eq!(r.element_text, "<a/>");
    assert_eq!(r.xpath, "/root/a (first)");
    assert_eq!(r.line_number, 2);
}

#[test]
fn line_numbers_count_newlines_before_the_match() {
    let doc = b"<root>\n  <a id=\"1\"/>\n  <b id=\"2\">x</b>\n</root>";
    let token = CancelToken::new();
    let mut progress: Vec<u64> = Vec::new();
    let r = search_node(doc, "2", "id", 0, &token, &mut progress).unwrap();
    assert!(r.found);
    assert_eq!(r.line_number, 3);
    assert_eq!(r.element_text, "<b id=\"2\">x</b>");
}

#[test]
fn context_windows_surround_the_element() {
    let token = CancelToken::new();
    let mut progress: Vec<u64> = Vec::new();
    let r = search_node(DOC, "2", "id", 0, &token, &mut progress).unwrap();
    assert!(r.found);
    assert_eq!(r.context_before, "<root><a id=\"1\"/>");
    assert_eq!(r.context_after, "</root>");
}

#[test]
fn failure_after_the_match_is_never_reached() {
    // The tokenizer would fail on the unterminated comment, but the match
    // comes first; an error is only ever a failure before any match.
    let token = CancelToken::new();
    let mut progress: Vec<u64> = Vec::new();
    let r = search_node(b"<root><a id=\"1\"/><!--", "1", "id", 0, &token, &mut progress).unwrap();
    assert!(r.found);
    assert_eq!(r.element_text, "<a id=\"1\"/>");
}
