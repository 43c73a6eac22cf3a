//! First and last child of the document root.
//!
//! The first child comes from a forward scan: the first element event after
//! the root's own opening tag. The last child comes from the backward
//! scanner: a right-to-left walk over the raw bytes, classifying each tag
//! and counting nesting depth in reverse — a closing tag deepens, an opening
//! tag rises — so the last direct child of the root is found without
//! parsing the document from the start.

use vstd::prelude::*;
use vstd::string::{StringExecFns, StrSliceExecFns, StringSliceAdditionalSpecFns};
use crate::{NavError, SearchResult};
use crate::extract::{
    extract_and_build_result, find_byte, lemma_find_byte_range, spec_built, spec_find_byte,
};
use crate::scan::{
    ScanEvent, scan_event, scan_pos, scanner_new, scanner_next, scanner_position, spec_event_name,
    spec_is_element, spec_xpath,
};
use crate::search::{find_element_end_pos, spec_found_end};
use crate::tags::{TagKind, classify_tag, spec_classify};
use crate::text::{lossy_of, lossy_decode};

verus! {

/// Bound on the bytes of one tag that the backward scanner resolves: the
/// window size of the chunked backward read.
pub const BACK_WINDOW: usize = 65536;

/// Joins root name and child name into `/root/child` plus a marker.
fn child_xpath(root: &String, child: &String, marker: &str, rn: Ghost<Seq<u8>>, cn: Ghost<
    Seq<u8>,
>) -> (r: String)
    requires
        root@ == lossy_of(rn@),
        child@ == lossy_of(cn@),
    ensures
        r@ == spec_xpath(seq![rn@, cn@]) + marker@,
{
    let slash = "/";
    proof {
        reveal_strlit("/");
        assert(slash@ =~= seq!['/']);
    }
    let mut out = String::new();
    out.append(slash);
    out.append(root.as_str());
    out.append(slash);
    out.append(child.as_str());
    out.append(marker);
    proof {
        let names2 = seq![rn@, cn@];
        let names1 = seq![rn@];
        assert(names2.drop_last() =~= names1);
        assert(names2.last() == cn@);
        assert(names1.drop_last() =~= Seq::<Seq<u8>>::empty());
        assert(names1.last() == rn@);
        assert(spec_xpath(Seq::<Seq<u8>>::empty()) =~= Seq::<char>::empty());
        assert(spec_xpath(names1) =~= Seq::<char>::empty() + seq!['/'] + lossy_of(rn@));
        assert(spec_xpath(names2) =~= spec_xpath(names1) + seq!['/'] + lossy_of(cn@));
        assert(out@ =~= spec_xpath(names2) + marker@);
    }
    out
}

/// What a located first child is: the scan saw the root's opening tag as
/// the only element event before the first child's own element event, the
/// path names both, and the result was built exactly from the child
/// event's reported position and the end-locating walk after it.
pub open spec fn spec_first_child_found(d: Seq<u8>, res: SearchResult) -> bool {
    exists|ri: int, ci: int|
        #![trigger spec_built(d, res.xpath@, scan_pos(d, ci), spec_found_end(d, ci), res), scan_event(d, ri)]
        {
            &&& 0 <= ri < ci
            &&& scan_event(d, ri) matches ScanEvent::Open { .. }
            &&& spec_is_element(d, ci)
            &&& forall|j: int| 0 <= j < ci && j != ri ==> !spec_is_element(d, j)
            &&& res.xpath@ == spec_xpath(
                seq![
                    spec_event_name(scan_event(d, ri)),
                    spec_event_name(scan_event(d, ci)),
                ],
            ) + " (first)"@
            &&& spec_built(d, res.xpath@, scan_pos(d, ci), spec_found_end(d, ci), res)
        }
}

/// What the scan saw when the root is reported empty: the first element
/// event of the document is a self-closing tag — the root itself.
pub open spec fn spec_empty_root_seen(d: Seq<u8>, i: int) -> bool {
    &&& 0 <= i
    &&& scan_event(d, i) matches ScanEvent::SelfClosed { .. }
    &&& forall|j: int| 0 <= j < i ==> !spec_is_element(d, j)
}

/// What the scan saw when the root is reported childless: it stopped (end
/// of input, or the scan cap) having seen at most one element event, an
/// opening tag — the root's own.
pub open spec fn spec_no_children_seen(d: Seq<u8>, i: int) -> bool {
    &&& 0 <= i
    &&& (scan_event(d, i) is Eof || i >= d.len())
    &&& forall|j1: int, j2: int|
        #![trigger spec_is_element(d, j1), spec_is_element(d, j2)]
        0 <= j1 < i && 0 <= j2 < i && spec_is_element(d, j1) && spec_is_element(d, j2) ==> j1 == j2
    &&& forall|j: int|
        0 <= j < i && #[trigger] spec_is_element(d, j) ==> scan_event(d, j) matches ScanEvent::Open {
            ..
        }
}

/// What the scan saw when it reports a parse failure: the tokenizer
/// rejected the input at event `i`, before any child element — at most one
/// element event came before it, the root's own opening tag — and the
/// reported failure position is the one the scan carried.
pub open spec fn spec_first_scan_failed(d: Seq<u8>, i: int) -> bool {
    &&& 0 <= i
    &&& scan_event(d, i) is Failed
    &&& forall|j1: int, j2: int|
        #![trigger spec_is_element(d, j1), spec_is_element(d, j2)]
        0 <= j1 < i && 0 <= j2 < i && spec_is_element(d, j1) && spec_is_element(d, j2) ==> j1 == j2
    &&& forall|j: int|
        0 <= j < i && #[trigger] spec_is_element(d, j) ==> scan_event(d, j) matches ScanEvent::Open {
            ..
        }
}

/// Forward-scans from the start of the document: the first element event
/// after the root's own opening tag is the first child. A self-closing root
/// has no children; a document whose scan ends without a child has none.
pub fn get_first_child(doc: &[u8]) -> (r: Result<SearchResult, NavError>)
    requires
        doc@.len() < u64::MAX,
    ensures
        r matches Ok(res) ==> res.found && spec_first_child_found(doc@, res),
        r matches Err(e) ==> e is EmptyRoot || e is NoChildren || e is ScanFailed,
        r matches Err(NavError::ScanFailed { pos }) ==> exists|i: int|
            #[trigger] spec_first_scan_failed(doc@, i) && pos as int == scan_pos(doc@, i + 1),
        (r matches Err(e) && e is EmptyRoot) ==> exists|i: int| #[trigger] spec_empty_root_seen(
            doc@,
            i,
        ),
        (r matches Err(e) && e is NoChildren) ==> exists|i: int| #[trigger] spec_no_children_seen(
            doc@,
            i,
        ),
{
    let mut s = scanner_new(doc);
    let mut buf: Vec<u8> = Vec::new();
    let mut root_found = false;
    let mut root_name = String::new();
    let ghost mut ri: int = 0;
    let mut fuel: usize = doc.len();

    while fuel > 0
        invariant
            doc@.len() < u64::MAX,
            s.tape() == doc@,
            0 <= s.step(),
            doc@.len() as int - s.step() <= fuel as int,
            root_found ==> {
                &&& 0 <= ri < s.step()
                &&& scan_event(doc@, ri) matches ScanEvent::Open { .. }
                &&& root_name@ == lossy_of(spec_event_name(scan_event(doc@, ri)))
            },
            forall|j: int| 0 <= j < s.step() && (!root_found || j != ri) ==> !spec_is_element(
                doc@,
                j,
            ),
        decreases fuel,
    {
        fuel -= 1;
        let ghost st = s.step();
        let p_before = scanner_position(&s);
        let ev = scanner_next(&mut s, &mut buf);
        match ev {
            ScanEvent::Open { name, .. } => {
                if !root_found {
                    root_found = true;
                    root_name = lossy_decode(name.as_slice());
                    proof {
                        ri = st;
                    }
                } else {
                    let nm = lossy_decode(name.as_slice());
                    let ae = find_element_end_pos(&mut s, &mut buf, &nm, doc.len());
                    let xpath = child_xpath(
                        &root_name,
                        &nm,
                        " (first)",
                        Ghost(spec_event_name(scan_event(doc@, ri))),
                        Ghost(name@),
                    );
                    let res = extract_and_build_result(
                        doc,
                        p_before as u64,
                        ae as u64,
                        xpath.as_str(),
                    );
                    proof {
                        assert(ae as int == spec_found_end(doc@, st));
                        assert(spec_built(
                            doc@,
                            res.xpath@,
                            scan_pos(doc@, st),
                            spec_found_end(doc@, st),
                            res,
                        ));
                    }
                    return Ok(res);
                }
            },
            ScanEvent::SelfClosed { name, .. } => {
                if !root_found {
                    // The root itself is self-closing: no children.
                    proof {
                        assert(spec_empty_root_seen(doc@, st));
                    }
                    return Err(NavError::EmptyRoot);
                }
                let nm = lossy_decode(name.as_slice());
                let ae = scanner_position(&s);
                let xpath = child_xpath(
                    &root_name,
                    &nm,
                    " (first)",
                    Ghost(spec_event_name(scan_event(doc@, ri))),
                    Ghost(name@),
                );
                let res = extract_and_build_result(doc, p_before as u64, ae as u64, xpath.as_str());
                proof {
                    assert(ae as int == spec_found_end(doc@, st));
                    assert(spec_built(
                        doc@,
                        res.xpath@,
                        scan_pos(doc@, st),
                        spec_found_end(doc@, st),
                        res,
                    ));
                }
                return Ok(res);
            },
            ScanEvent::Eof => {
                proof {
                    assert forall|j: int|
                        0 <= j < st && #[trigger] spec_is_element(doc@, j) implies scan_event(
                        doc@,
                        j,
                    ) matches ScanEvent::Open { .. } by {
                        assert(root_found && j == ri);
                    }
                    assert forall|j1: int, j2: int|
                        #![trigger spec_is_element(doc@, j1), spec_is_element(doc@, j2)]
                        0 <= j1 < st && 0 <= j2 < st && spec_is_element(doc@, j1)
                            && spec_is_element(doc@, j2) implies j1 == j2 by {
                        assert(j1 == ri && j2 == ri);
                    }
                    assert(spec_no_children_seen(doc@, st));
                }
                return Err(NavError::NoChildren);
            },
            ScanEvent::Failed => {
                let p_err = scanner_position(&s);
                proof {
                    assert forall|j: int|
                        0 <= j < st && #[trigger] spec_is_element(doc@, j) implies scan_event(
                        doc@,
                        j,
                    ) matches ScanEvent::Open { .. } by {
                        assert(root_found && j == ri);
                    }
                    assert forall|j1: int, j2: int|
                        #![trigger spec_is_element(doc@, j1), spec_is_element(doc@, j2)]
                        0 <= j1 < st && 0 <= j2 < st && spec_is_element(doc@, j1)
                            && spec_is_element(doc@, j2) implies j1 == j2 by {
                        assert(j1 == ri && j2 == ri);
                    }
                    assert(spec_first_scan_failed(doc@, st));
                }
                return Err(NavError::ScanFailed { pos: p_err as u64 });
            },
            _ => {},
        }
    }
    let ghost st = s.step();
    proof {
        assert forall|j: int|
            0 <= j < st && #[trigger] spec_is_element(doc@, j) implies scan_event(
            doc@,
            j,
        ) matches ScanEvent::Open { .. } by {
            assert(root_found && j == ri);
        }
        assert forall|j1: int, j2: int|
            #![trigger spec_is_element(doc@, j1), spec_is_element(doc@, j2)]
            0 <= j1 < st && 0 <= j2 < st && spec_is_element(doc@, j1) && spec_is_element(
                doc@,
                j2,
            ) implies j1 == j2 by {
            assert(j1 == ri && j2 == ri);
        }
        assert(spec_no_children_seen(doc@, st));
    }
    Err(NavError::NoChildren)
}
/// Outcome of the backward walk: the reversed-depth protocol either
/// confirms a last child, crosses the root's opening tag, or runs out of
/// document.
pub enum BackOutcome {
    /// A last child was confirmed: its `<` offset, the end of its own
    /// opening or self-closing tag, the end of the whole element, and the
    /// span of the root's closing tag.
    Found { start: int, tag_end: int, end: int, root_start: int, root_end: int },
    /// The root's own opening tag was reached without a candidate: the
    /// root has no children.
    RootExit,
    /// The walk reached the start of the document without an answer.
    Exhausted,
}

/// The recorded candidate end, as a mathematical option.
pub open spec fn spec_end_opt(e: Option<usize>) -> Option<int> {
    match e {
        Option::Some(v) => Option::Some(v as int),
        Option::None => Option::None,
    }
}

/// The recorded root span, or a degenerate one when none was recorded yet
/// (the walk never confirms a child before recording the root).
pub open spec fn spec_root_span(root: Option<(int, int)>) -> (int, int) {
    match root {
        Option::Some(pr) => pr,
        Option::None => (0, 0),
    }
}

/// The backward walk over `d` from position `i - 1` down to the start,
/// carrying the reversed nesting depth, the recorded candidate end, and
/// the root's closing-tag span. At each `<`, the tag is resolved to its
/// `>` within `BACK_WINDOW` and classified; non-elements are skipped. A
/// closing tag deepens — capturing the root's span when depth first
/// reaches one and the candidate end when it reaches two; an opening tag
/// rises — confirming the candidate when depth returns to one, or
/// reporting the crossed root at depth zero; a self-closing tag at depth
/// one is immediately the answer.
pub open spec fn spec_back_step(
    d: Seq<u8>,
    i: int,
    depth: int,
    cand: Option<int>,
    root: Option<(int, int)>,
) -> BackOutcome
    decreases i,
{
    if i <= 0 {
        BackOutcome::Exhausted
    } else {
        let p = i - 1;
        if d[p] != 60 {
            spec_back_step(d, p, depth, cand, root)
        } else {
            let to = if p + BACK_WINDOW < d.len() {
                p + BACK_WINDOW
            } else {
                d.len() as int
            };
            match spec_find_byte(d, 62, p, to) {
                Option::None => spec_back_step(d, p, depth, cand, root),
                Option::Some(gt) => match spec_classify(d.subrange(p, gt + 1)) {
                    Option::None => spec_back_step(d, p, depth, cand, root),
                    Option::Some(t) => {
                        if t.1 == TagKind::Close {
                            spec_back_step(
                                d,
                                p,
                                depth + 1,
                                if depth + 1 == 2 {
                                    Option::Some(gt + 1)
                                } else {
                                    cand
                                },
                                if depth + 1 == 1 {
                                    Option::Some((p, gt + 1))
                                } else {
                                    root
                                },
                            )
                        } else if t.1 == TagKind::Open {
                            if depth - 1 == 1 && cand is Some {
                                BackOutcome::Found {
                                    start: p,
                                    tag_end: gt + 1,
                                    end: cand.unwrap(),
                                    root_start: spec_root_span(root).0,
                                    root_end: spec_root_span(root).1,
                                }
                            } else if depth - 1 == 0 {
                                BackOutcome::RootExit
                            } else {
                                spec_back_step(d, p, depth - 1, cand, root)
                            }
                        } else {
                            if depth == 1 {
                                BackOutcome::Found {
                                    start: p,
                                    tag_end: gt + 1,
                                    end: gt + 1,
                                    root_start: spec_root_span(root).0,
                                    root_end: spec_root_span(root).1,
                                }
                            } else {
                                spec_back_step(d, p, depth, cand, root)
                            }
                        }
                    },
                },
            }
        }
    }
}

/// The whole backward walk, from the end of the document.
pub open spec fn spec_back_scan(d: Seq<u8>) -> BackOutcome {
    spec_back_step(d, d.len() as int, 0, Option::None, Option::None)
}

/// What a confirmed last child\'s record is: the path joins the root\'s
/// closing-tag name and the child\'s own tag name under the last-marker,
/// and every field was built exactly from the walk\'s boundaries.
pub open spec fn spec_last_child_result(d: Seq<u8>, res: SearchResult) -> bool {
    match spec_back_scan(d) {
        BackOutcome::Found { start, tag_end, end, root_start, root_end } => {
            &&& res.xpath@ == spec_xpath(
                seq![
                    spec_classify(d.subrange(root_start, root_end)).unwrap().0,
                    spec_classify(d.subrange(start, tag_end)).unwrap().0,
                ],
            ) + " (last)"@
            &&& spec_built(d, res.xpath@, start, end, res)
        },
        _ => false,
    }
}

/// Locates the last direct child of the root by the backward walk that
/// `spec_back_scan` states, and answers exactly what the walk found: a
/// confirmed child is returned with its boundaries resolved, a crossed
/// root is the no-children error, an exhausted walk is the not-found
/// error, and an empty document is its own error.
pub fn get_last_child(doc: &[u8]) -> (r: Result<SearchResult, NavError>)
    requires
        doc@.len() < u64::MAX,
    ensures
        r is Ok <==> (doc@.len() > 0 && spec_back_scan(doc@) is Found),
        r matches Ok(res) ==> res.found && spec_last_child_result(doc@, res),
        r matches Err(e) ==> {
            &&& (e is EmptyFile <==> doc@.len() == 0)
            &&& (e is RootExited <==> doc@.len() > 0 && spec_back_scan(doc@) is RootExit)
            &&& (e is NoLastChild <==> doc@.len() > 0 && spec_back_scan(doc@) is Exhausted)
            &&& (e is EmptyFile || e is RootExited || e is NoLastChild)
        },
{
    let n: usize = doc.len();
    if n == 0 {
        proof {
            assert(spec_back_scan(doc@) is Exhausted);
        }
        return Err(NavError::EmptyFile);
    }
    let ghost walk = spec_back_scan(doc@);
    let mut depth: i128 = 0;
    let mut last_tag_end: Option<usize> = None;
    let mut root_name = String::new();
    let ghost mut groot: Option<(int, int)> = Option::None;

    let mut i: usize = n;
    while i > 0
        invariant
            n == doc@.len(),
            doc@.len() < u64::MAX,
            i <= n,
            -((n - i) as int) <= depth as int <= (n - i) as int,
            walk == spec_back_scan(doc@),
            spec_back_step(doc@, i as int, depth as int, spec_end_opt(last_tag_end), groot)
                == walk,
            depth >= 1 ==> groot is Some,
            last_tag_end is Some ==> groot is Some,
            last_tag_end matches Some(e) ==> e <= n,
            groot matches Some(pr) ==> {
                &&& 0 <= pr.0 < pr.1 <= n
                &&& spec_classify(doc@.subrange(pr.0, pr.1)) matches Some(rt) && rt.1
                    == TagKind::Close
                &&& root_name@ == lossy_of(spec_classify(doc@.subrange(pr.0, pr.1)).unwrap().0)
            },
        decreases i,
    {
        let ghost iold = i as int;
        let ghost depth0 = depth as int;
        let ghost cand0 = spec_end_opt(last_tag_end);
        let ghost groot0 = groot;
        i -= 1;
        if doc[i] != 60 {
            proof {
                assert(spec_back_step(doc@, iold, depth0, cand0, groot0) == spec_back_step(
                    doc@,
                    i as int,
                    depth0,
                    cand0,
                    groot0,
                ));
            }
            continue;
        }
        // Resolve the complete tag up to its \'>\', within the window bound.
        let to: usize = if n - i < BACK_WINDOW {
            n
        } else {
            i + BACK_WINDOW
        };
        proof {
            assert(to as int == if i as int + BACK_WINDOW < doc@.len() {
                i as int + BACK_WINDOW
            } else {
                doc@.len() as int
            });
        }
        let gt: usize = match find_byte(doc, 62, i, to) {
            Some(g) => {
                proof {
                    lemma_find_byte_range(doc@, 62, i as int, to as int);
                }
                g
            },
            None => {
                proof {
                    assert(spec_back_step(doc@, iold, depth0, cand0, groot0) == spec_back_step(
                        doc@,
                        i as int,
                        depth0,
                        cand0,
                        groot0,
                    ));
                }
                continue;
            },
        };
        let tag = vstd::slice::slice_subrange(doc, i, gt + 1);
        proof {
            assert(tag@ =~= doc@.subrange(i as int, gt + 1));
        }
        let parsed = classify_tag(tag);
        let (tag_name, tag_kind, _tag_len) = match parsed {
            Some(v) => v,
            None => {
                // PI, comment, CDATA, or malformed: skip.
                proof {
                    assert(spec_back_step(doc@, iold, depth0, cand0, groot0) == spec_back_step(
                        doc@,
                        i as int,
                        depth0,
                        cand0,
                        groot0,
                    ));
                }
                continue;
            },
        };

        match tag_kind {
            TagKind::Close => {
                depth += 1;
                if depth == 1 {
                    root_name = tag_name;
                    proof {
                        groot = Option::Some((i as int, gt + 1));
                    }
                }
                // Seeing `</child>` one level inside the root records the
                // candidate end of the last child.
                if depth == 2 {
                    last_tag_end = Some(gt + 1);
                }
                proof {
                    assert(spec_back_step(doc@, iold, depth0, cand0, groot0) == spec_back_step(
                        doc@,
                        i as int,
                        depth as int,
                        spec_end_opt(last_tag_end),
                        groot,
                    ));
                }
            },
            TagKind::Open => {
                depth -= 1;
                if depth == 1 {
                    if let Some(end) = last_tag_end {
                        proof {
                            assert(walk == BackOutcome::Found {
                                start: i as int,
                                tag_end: gt + 1,
                                end: end as int,
                                root_start: spec_root_span(groot).0,
                                root_end: spec_root_span(groot).1,
                            });
                        }
                        let ghost pr = groot.unwrap();
                        let xpath = child_xpath(
                            &root_name,
                            &tag_name,
                            " (last)",
                            Ghost(spec_classify(doc@.subrange(pr.0, pr.1)).unwrap().0),
                            Ghost(spec_classify(doc@.subrange(i as int, gt + 1)).unwrap().0),
                        );
                        let res = extract_and_build_result(
                            doc,
                            i as u64,
                            end as u64,
                            xpath.as_str(),
                        );
                        proof {
                            assert(spec_built(doc@, res.xpath@, i as int, end as int, res));
                        }
                        return Ok(res);
                    }
                }
                if depth == 0 {
                    // The root\'s own opening tag: no children were found.
                    proof {
                        assert(walk == BackOutcome::RootExit);
                    }
                    return Err(NavError::RootExited);
                }
                proof {
                    assert(spec_back_step(doc@, iold, depth0, cand0, groot0) == spec_back_step(
                        doc@,
                        i as int,
                        depth as int,
                        cand0,
                        groot0,
                    ));
                }
            },
            TagKind::Empty => {
                // A self-closing child directly inside the root.
                if depth == 1 {
                    proof {
                        assert(walk == BackOutcome::Found {
                            start: i as int,
                            tag_end: gt + 1,
                            end: gt + 1,
                            root_start: spec_root_span(groot).0,
                            root_end: spec_root_span(groot).1,
                        });
                    }
                    let ghost pr = groot.unwrap();
                    let xpath = child_xpath(
                        &root_name,
                        &tag_name,
                        " (last)",
                        Ghost(spec_classify(doc@.subrange(pr.0, pr.1)).unwrap().0),
                        Ghost(spec_classify(doc@.subrange(i as int, gt + 1)).unwrap().0),
                    );
                    let res = extract_and_build_result(
                        doc,
                        i as u64,
                        (gt + 1) as u64,
                        xpath.as_str(),
                    );
                    proof {
                        assert(spec_built(doc@, res.xpath@, i as int, (gt + 1) as int, res));
                    }
                    return Ok(res);
                }
                proof {
                    assert(spec_back_step(doc@, iold, depth0, cand0, groot0) == spec_back_step(
                        doc@,
                        i as int,
                        depth0,
                        cand0,
                        groot0,
                    ));
                }
            },
        }
    }
    proof {
        assert(walk is Exhausted);
    }
    Err(NavError::NoLastChild)
}

} // verus!
