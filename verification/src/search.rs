//! Forward streaming search: scan the document tag by tag from a starting
//! offset, keep the ancestor-name stack, report coalesced progress, honour
//! cancellation between events, and on a match resolve the element's exact
//! boundaries and context.

use vstd::prelude::*;
use vstd::string::{StringExecFns, StrSliceExecFns, StringSliceAdditionalSpecFns};
use crate::{NavError, SearchResult, spec_not_found, not_found_result};
use crate::cancel::CancelToken;
use crate::extract::{extract_and_build_result, spec_built};
use crate::matcher::element_matches_bytes;
use crate::scan::{
    ScanEvent, Scanner, scan_event, scan_pos, scanner_new, scanner_next, scanner_position,
    stack_names, spec_match_at, spec_match_stack, spec_xpath,
};
use crate::text::{lossy_of, lossy_decode, lower_bytes, spec_lower_seq};

verus! {

/// Give-up bound on the bytes walked while locating one element's end.
pub const SCAN_LIMIT: usize = 10485760;

/// Where the scan of a document of length `|d|` actually starts for a
/// requested `start` offset: clipped to the document.
pub open spec fn spec_sub_start(d: Seq<u8>, start: int) -> int {
    if start <= d.len() {
        start
    } else {
        d.len() as int
    }
}

/// How a search extends the progress log: the old entries stay, every new
/// entry is a percentage, and each new entry is above its predecessor except
/// the mandatory final `100`, which may repeat it.
pub open spec fn spec_progress_extended(before: Seq<u64>, after: Seq<u64>) -> bool {
    &&& after.len() >= before.len()
    &&& after.take(before.len() as int) == before
    &&& forall|k: int| before.len() <= k < after.len() ==> #[trigger] after[k] <= 100
    &&& forall|k: int|
        before.len() <= k < after.len() - 1 ==> (#[trigger] after[k] < after[k + 1] || after[k + 1]
            == 100)
}

/// What a `found` search result is: some element event of the scan (over
/// the document clipped at the start offset) matched the lower-cased query
/// under the lower-cased selector; the result's path is the slash-joined
/// ancestor stack at that event including the element itself, and its text,
/// context, offset and line number were built exactly from the event's
/// reported position and the end-locating walk after it, by boundary
/// resolution.
pub open spec fn spec_search_found(
    d: Seq<u8>,
    q: Seq<u8>,
    t: Seq<u8>,
    start: int,
    res: SearchResult,
) -> bool {
    let s0 = spec_sub_start(d, start);
    let sub = d.skip(s0);
    exists|i: int|
        {
            &&& 0 <= i
            &&& spec_match_at(sub, spec_lower_seq(q), spec_lower_seq(t), i)
            &&& forall|j: int|
                0 <= j < i ==> !spec_match_at(sub, spec_lower_seq(q), spec_lower_seq(t), j)
            &&& #[trigger] spec_built(
                d,
                spec_xpath(spec_match_stack(sub, i)),
                s0 + scan_pos(sub, i),
                s0 + spec_found_end(sub, i),
                res,
            )
        }
}

/// What the scan saw when a search reports a parse failure: the tokenizer
/// rejected the input at event `j` of the clipped document, before any
/// match, end of input or earlier failure — so an error is never owed on a
/// scan that would have completed.
pub open spec fn spec_search_scan_failed(sub: Seq<u8>, q: Seq<u8>, t: Seq<u8>, j: int) -> bool {
    &&& 0 <= j
    &&& scan_event(sub, j) is Failed
    &&& forall|k: int|
        0 <= k < j ==> !(#[trigger] spec_match_at(sub, q, t, k) || scan_event(sub, k) is Eof
            || scan_event(sub, k) is Failed)
}

/// `v` is the integer percentage of a position the scan over the clipped
/// document reported: `floor(position * 100 / length)` over the whole
/// document's length.
pub open spec fn spec_is_pct_of(d: Seq<u8>, start: int, v: u64) -> bool {
    exists|j: int|
        0 <= j && v as int == (spec_sub_start(d, start) + #[trigger] scan_pos(
            d.skip(spec_sub_start(d, start)),
            j,
        )) * 100 / (d.len() as int)
}

/// Every progress entry in the appended region except the last (the
/// mandatory final `100`) is the integer percentage of a position the scan
/// reported.
pub open spec fn spec_progress_values(
    d: Seq<u8>,
    start: int,
    before: Seq<u64>,
    after: Seq<u64>,
) -> bool {
    forall|k: int|
        before.len() <= k < after.len() - 1 ==> spec_is_pct_of(d, start, #[trigger] after[k])
}

/// What a completed search returns: a located element as `spec_search_found`
/// says, or the all-empty `found == false` record (exhaustion or
/// cancellation).
pub open spec fn spec_search_result(
    d: Seq<u8>,
    q: Seq<u8>,
    t: Seq<u8>,
    start: int,
    res: SearchResult,
) -> bool {
    if res.found {
        spec_search_found(d, q, t, start, res)
    } else {
        spec_not_found(res)
    }
}

/// The end-locating walk after a matched opening tag, as a function of the
/// event stream: from event `i`, a depth counter keyed to `name` rises on
/// same-named opening tags and falls on same-named closing tags, and the
/// position reported once it returns to zero is the approximate end. The
/// walk answers the current position when the byte cap, the depth cap or
/// the event budget `fuel` runs out, and the position after the stopping
/// event at end of input or on a tokenizer error.
pub open spec fn spec_end_scan(
    tape: Seq<u8>,
    i: int,
    name: Seq<char>,
    depth: int,
    initial: int,
    fuel: nat,
) -> int
    decreases fuel,
{
    if fuel == 0 {
        scan_pos(tape, i)
    } else {
        let pos = scan_pos(tape, i);
        if pos > initial && pos - initial > SCAN_LIMIT {
            pos
        } else {
            match scan_event(tape, i) {
                ScanEvent::Open { name: nm, .. } => if lossy_of(nm@) == name {
                    if depth == u64::MAX {
                        scan_pos(tape, i + 1)
                    } else {
                        spec_end_scan(tape, i + 1, name, depth + 1, initial, (fuel - 1) as nat)
                    }
                } else {
                    spec_end_scan(tape, i + 1, name, depth, initial, (fuel - 1) as nat)
                },
                ScanEvent::Close { name: nm } => if lossy_of(nm@) == name {
                    if depth == 1 {
                        scan_pos(tape, i + 1)
                    } else {
                        spec_end_scan(tape, i + 1, name, depth - 1, initial, (fuel - 1) as nat)
                    }
                } else {
                    spec_end_scan(tape, i + 1, name, depth, initial, (fuel - 1) as nat)
                },
                ScanEvent::Eof => scan_pos(tape, i + 1),
                ScanEvent::Failed => scan_pos(tape, i + 1),
                _ => spec_end_scan(tape, i + 1, name, depth, initial, (fuel - 1) as nat),
            }
        }
    }
}

/// The approximate end of the element matched at event `i` of `sub`: the
/// position after the tag for a self-closing element, or the end-locating
/// walk from the next event for an opening tag, with the whole slice as
/// its event budget.
pub open spec fn spec_found_end(sub: Seq<u8>, i: int) -> int {
    match scan_event(sub, i) {
        ScanEvent::Open { name, .. } => spec_end_scan(
            sub,
            i + 1,
            lossy_of(name@),
            1,
            scan_pos(sub, i + 1),
            sub.len(),
        ),
        _ => scan_pos(sub, i + 1),
    }
}

/// After a matched opening tag, reads on until the matching close: a depth
/// counter keyed to the tag's name rises on same-named opens and falls on
/// same-named closes; the position where it returns to zero is the
/// approximate end. Gives up past `SCAN_LIMIT` intervening bytes, at end of
/// input, on a tokenizer error, and when the event budget `fuel` runs out,
/// answering the current position; the boundary resolver corrects it. The
/// answer is exactly what `spec_end_scan` says of the event stream.
pub fn find_element_end_pos(
    s: &mut Scanner,
    buf: &mut Vec<u8>,
    tag_name: &String,
    fuel: usize,
) -> (ae: usize)
    ensures
        final(s).tape() == old(s).tape(),
        ae <= old(s).tape().len(),
        ae as int == spec_end_scan(
            old(s).tape(),
            old(s).step(),
            tag_name@,
            1,
            scan_pos(old(s).tape(), old(s).step()),
            fuel as nat,
        ),
{
    let initial = scanner_position(s);
    let mut depth: u64 = 1;
    let mut left: usize = fuel;
    while left > 0
        invariant
            s.tape() == old(s).tape(),
            old(s).step() <= s.step(),
            depth >= 1,
            initial as int == scan_pos(old(s).tape(), old(s).step()),
            spec_end_scan(
                old(s).tape(),
                s.step(),
                tag_name@,
                depth as int,
                initial as int,
                left as nat,
            ) == spec_end_scan(
                old(s).tape(),
                old(s).step(),
                tag_name@,
                1,
                initial as int,
                fuel as nat,
            ),
        decreases left,
    {
        let ghost st = s.step();
        let ghost left0 = left as nat;
        let ghost dep0 = depth as int;
        left -= 1;
        let pos = scanner_position(s);
        if pos > initial && pos - initial > SCAN_LIMIT {
            return pos;
        }
        let ev = scanner_next(s, buf);
        match ev {
            ScanEvent::Open { name, .. } => {
                let nm = lossy_decode(name.as_slice());
                if nm == *tag_name {
                    if depth == u64::MAX {
                        proof {
                            assert(spec_end_scan(s.tape(), st, tag_name@, dep0, initial as int, left0)
                                == scan_pos(s.tape(), st + 1));
                        }
                        return scanner_position(s);
                    }
                    depth += 1;
                    proof {
                        assert(spec_end_scan(s.tape(), st, tag_name@, dep0, initial as int, left0)
                            == spec_end_scan(
                            s.tape(),
                            st + 1,
                            tag_name@,
                            dep0 + 1,
                            initial as int,
                            (left0 - 1) as nat,
                        ));
                    }
                } else {
                    proof {
                        assert(spec_end_scan(s.tape(), st, tag_name@, dep0, initial as int, left0)
                            == spec_end_scan(
                            s.tape(),
                            st + 1,
                            tag_name@,
                            dep0,
                            initial as int,
                            (left0 - 1) as nat,
                        ));
                    }
                }
            },
            ScanEvent::Close { name } => {
                let nm = lossy_decode(name.as_slice());
                if nm == *tag_name {
                    depth -= 1;
                    if depth == 0 {
                        proof {
                            assert(spec_end_scan(s.tape(), st, tag_name@, dep0, initial as int, left0)
                                == scan_pos(s.tape(), st + 1));
                        }
                        return scanner_position(s);
                    }
                    proof {
                        assert(spec_end_scan(s.tape(), st, tag_name@, dep0, initial as int, left0)
                            == spec_end_scan(
                            s.tape(),
                            st + 1,
                            tag_name@,
                            dep0 - 1,
                            initial as int,
                            (left0 - 1) as nat,
                        ));
                    }
                } else {
                    proof {
                        assert(spec_end_scan(s.tape(), st, tag_name@, dep0, initial as int, left0)
                            == spec_end_scan(
                            s.tape(),
                            st + 1,
                            tag_name@,
                            dep0,
                            initial as int,
                            (left0 - 1) as nat,
                        ));
                    }
                }
            },
            ScanEvent::SelfClosed { .. } => {
                proof {
                    assert(spec_end_scan(s.tape(), st, tag_name@, dep0, initial as int, left0)
                        == spec_end_scan(
                        s.tape(),
                        st + 1,
                        tag_name@,
                        dep0,
                        initial as int,
                        (left0 - 1) as nat,
                    ));
                }
            },
            ScanEvent::Other => {
                proof {
                    assert(spec_end_scan(s.tape(), st, tag_name@, dep0, initial as int, left0)
                        == spec_end_scan(
                        s.tape(),
                        st + 1,
                        tag_name@,
                        dep0,
                        initial as int,
                        (left0 - 1) as nat,
                    ));
                }
            },
            ScanEvent::Eof => {
                proof {
                    assert(spec_end_scan(s.tape(), st, tag_name@, dep0, initial as int, left0)
                        == scan_pos(s.tape(), st + 1));
                }
                return scanner_position(s);
            },
            ScanEvent::Failed => {
                proof {
                    assert(spec_end_scan(s.tape(), st, tag_name@, dep0, initial as int, left0)
                        == scan_pos(s.tape(), st + 1));
                }
                return scanner_position(s);
            },
        }
    }
    proof {
        assert(spec_end_scan(s.tape(), s.step(), tag_name@, depth as int, initial as int, 0nat)
            == scan_pos(s.tape(), s.step()));
    }
    scanner_position(s)
}

/// Joins the decoded ancestor stack into a slash-led path.
pub(crate) fn join_path(stack: &Vec<String>, names: Ghost<Seq<Seq<u8>>>) -> (r: String)
    requires
        stack@.len() == names@.len(),
        forall|k: int| 0 <= k < names@.len() ==> stack@[k]@ == lossy_of(names@[k]),
    ensures
        r@ == spec_xpath(names@),
{
    let mut out = String::new();
    let slash = "/";
    proof {
        reveal_strlit("/");
        assert(slash@ =~= seq!['/']);
    }
    let mut j: usize = 0;
    while j < stack.len()
        invariant
            stack@.len() == names@.len(),
            forall|k: int| 0 <= k < names@.len() ==> stack@[k]@ == lossy_of(names@[k]),
            slash@ == seq!['/'],
            j <= stack@.len(),
            out@ == spec_xpath(names@.take(j as int)),
        decreases stack@.len() - j,
    {
        out.append(slash);
        out.append(stack[j].as_str());
        proof {
            assert(names@.take(j as int + 1).drop_last() =~= names@.take(j as int));
            assert(names@.take(j as int + 1).last() == names@[j as int]);
            assert(out@ =~= spec_xpath(names@.take(j as int + 1)));
        }
        j += 1;
    }
    proof {
        assert(names@.take(names@.len() as int) =~= names@);
    }
    out
}

/// Searches forward from `start_offset` for the first element matching
/// `query` under `search_type`, without resetting the cancellation token:
/// a token already set cancels at the first iteration. Progress is appended
/// to `progress` as coalesced integer percentages with a final mandatory
/// `100` on completion (match, exhaustion or cancellation); a tokenizer
/// failure is the one error and ends the scan without the final emission,
/// and is only ever reported for a real failure event that came before any
/// match or end of input. A `found == false` result is deliberately the
/// same shape for cancellation and for exhaustion, so no contract can tie
/// it to the scan alone: the token may read cancelled on any input.
#[verifier::rlimit(100)]
pub fn search_node_internal(
    doc: &[u8],
    query: &str,
    search_type: &str,
    start_offset: u64,
    cancel: &CancelToken,
    progress: &mut Vec<u64>,
) -> (r: Result<SearchResult, NavError>)
    requires
        doc@.len() < u64::MAX,
    ensures
        spec_progress_extended(old(progress)@, final(progress)@),
        spec_progress_values(doc@, start_offset as int, old(progress)@, final(progress)@),
        r matches Ok(res) ==> final(progress)@.len() > old(progress)@.len(),
        r matches Ok(res) ==> final(progress)@.last() == 100,
        r matches Ok(res) ==> spec_search_result(
            doc@,
            query.spec_bytes(),
            search_type.spec_bytes(),
            start_offset as int,
            res,
        ),
        r matches Err(e) ==> e is ScanFailed,
        r matches Err(NavError::ScanFailed { pos }) ==> ({
            let s0 = spec_sub_start(doc@, start_offset as int);
            let sub = doc@.skip(s0);
            exists|j: int|
                #[trigger] spec_search_scan_failed(
                    sub,
                    spec_lower_seq(query.spec_bytes()),
                    spec_lower_seq(search_type.spec_bytes()),
                    j,
                ) && pos as int == s0 + scan_pos(sub, j + 1)
        }),
{
    let len: usize = doc.len();
    let s0: usize = if start_offset <= len as u64 {
        start_offset as usize
    } else {
        len
    };
    let sub: &[u8] = vstd::slice::slice_subrange(doc, s0, len);
    proof {
        assert(sub@ =~= doc@.skip(s0 as int));
    }
    let qb = lower_bytes(query.as_bytes());
    let tb = lower_bytes(search_type.as_bytes());
    let mut s = scanner_new(sub);
    let mut buf: Vec<u8> = Vec::new();
    let mut stack: Vec<String> = Vec::new();
    let mut last_progress: u64 = 0;
    // The scan cap: a document of n bytes yields at most n events, and a
    // stuck tokenizer must not hang the search.
    let mut fuel: usize = sub.len();
    proof {
        assert(progress@.take(progress@.len() as int) =~= progress@);
    }

    while fuel > 0
        invariant
            doc@.len() < u64::MAX,
            len == doc@.len(),
            s0 <= len,
            s0 as int == spec_sub_start(doc@, start_offset as int),
            sub@ == doc@.skip(s0 as int),
            s.tape() == sub@,
            0 <= s.step(),
            qb@ == spec_lower_seq(query.spec_bytes()),
            tb@ == spec_lower_seq(search_type.spec_bytes()),
            stack@.len() == stack_names(sub@, s.step()).len(),
            forall|k: int| 0 <= k < stack@.len() ==> stack@[k]@ == lossy_of(
                stack_names(sub@, s.step())[k],
            ),
            forall|j: int| 0 <= j < s.step() ==> !spec_match_at(sub@, qb@, tb@, j),
            forall|j: int|
                0 <= j < s.step() ==> !((#[trigger] scan_event(sub@, j)) is Eof || scan_event(
                    sub@,
                    j,
                ) is Failed),
            spec_progress_extended(old(progress)@, progress@),
            forall|k: int|
                old(progress)@.len() <= k < progress@.len() ==> spec_is_pct_of(
                    doc@,
                    start_offset as int,
                    #[trigger] progress@[k],
                ),
            last_progress <= 100,
            forall|k: int|
                old(progress)@.len() <= k < progress@.len() ==> #[trigger] progress@[k]
                    <= last_progress,
        decreases fuel,
    {
        fuel -= 1;

        if cancel.is_cancelled() {
            push_final_progress(progress, Ghost(old(progress)@), last_progress);
            return Ok(not_found_result());
        }

        let ghost st_pos = s.step();
        let p_rel = scanner_position(&s);
        let pos_abs: usize = s0 + p_rel;
        let pct: u64 = if len == 0 {
            0
        } else {
            let wide: u128 = (pos_abs as u128) * 100;
            let q: u128 = wide / (len as u128);
            proof {
                assert((pos_abs as int) * 100 / (len as int) <= 100) by (nonlinear_arith)
                    requires
                        pos_abs as int <= len as int,
                        len as int >= 1,
                ;
            }
            q as u64
        };
        let ghost pre_emit = progress@;
        push_progress_step(progress, Ghost(old(progress)@), &mut last_progress, pct);
        proof {
            if progress@ != pre_emit {
                assert(len > 0);
                assert(doc@.skip(spec_sub_start(doc@, start_offset as int)) == sub@);
                assert(pct as int == (spec_sub_start(doc@, start_offset as int) + scan_pos(
                    doc@.skip(spec_sub_start(doc@, start_offset as int)),
                    st_pos,
                )) * 100 / (doc@.len() as int));
                assert(spec_is_pct_of(doc@, start_offset as int, pct));
                assert forall|k: int|
                    old(progress)@.len() <= k < progress@.len() implies spec_is_pct_of(
                    doc@,
                    start_offset as int,
                    #[trigger] progress@[k],
                ) by {
                    if k < pre_emit.len() {
                        assert(progress@[k] == pre_emit[k]);
                    } else {
                        assert(progress@[k] == pct);
                    }
                }
            }
        }

        let ghost st = s.step();
        let ev = scanner_next(&mut s, &mut buf);
        match ev {
            ScanEvent::Open { name, attrs } => {
                let matched = element_matches_bytes(
                    name.as_slice(),
                    &attrs,
                    qb.as_slice(),
                    tb.as_slice(),
                );
                let nm = lossy_decode(name.as_slice());
                let tag_string = nm.clone();
                stack.push(nm);
                proof {
                    assert(stack_names(sub@, st + 1) =~= stack_names(sub@, st).push(name@));
                }
                if !matched {
                    proof {
                        assert(!spec_match_at(sub@, qb@, tb@, st));
                    }
                } else {
                    let xpath = join_path(&stack, Ghost(stack_names(sub@, st + 1)));
                    let ae_rel = find_element_end_pos(&mut s, &mut buf, &tag_string, sub.len());
                    push_final_progress(progress, Ghost(old(progress)@), last_progress);
                    let res = extract_and_build_result(
                        doc,
                        pos_abs as u64,
                        (s0 + ae_rel) as u64,
                        xpath.as_str(),
                    );
                    proof {
                        assert(spec_match_at(sub@, qb@, tb@, st));
                        assert(spec_match_stack(sub@, st) =~= stack_names(sub@, st + 1));
                        assert(ae_rel as int == spec_found_end(sub@, st));
                        assert(spec_built(
                            doc@,
                            spec_xpath(spec_match_stack(sub@, st)),
                            s0 as int + scan_pos(sub@, st),
                            s0 + spec_found_end(sub@, st),
                            res,
                        ));
                    }
                    return Ok(res);
                }
            },
            ScanEvent::SelfClosed { name, attrs } => {
                let matched = element_matches_bytes(
                    name.as_slice(),
                    &attrs,
                    qb.as_slice(),
                    tb.as_slice(),
                );
                if !matched {
                    proof {
                        assert(!spec_match_at(sub@, qb@, tb@, st));
                    }
                } else {
                    let nm = lossy_decode(name.as_slice());
                    let ghost path_names = stack_names(sub@, st).push(name@);
                    proof {
                        assert(stack_names(sub@, st + 1) =~= stack_names(sub@, st));
                    }
                    stack.push(nm);
                    let xpath = join_path(&stack, Ghost(path_names));
                    let ae_rel = scanner_position(&s);
                    push_final_progress(progress, Ghost(old(progress)@), last_progress);
                    let res = extract_and_build_result(
                        doc,
                        pos_abs as u64,
                        (s0 + ae_rel) as u64,
                        xpath.as_str(),
                    );
                    proof {
                        assert(spec_match_at(sub@, qb@, tb@, st));
                        assert(spec_match_stack(sub@, st) =~= path_names);
                        assert(ae_rel as int == spec_found_end(sub@, st));
                        assert(spec_built(
                            doc@,
                            spec_xpath(spec_match_stack(sub@, st)),
                            s0 as int + scan_pos(sub@, st),
                            s0 + spec_found_end(sub@, st),
                            res,
                        ));
                    }
                    return Ok(res);
                }
            },
            ScanEvent::Close { .. } => {
                proof {
                    if stack_names(sub@, st).len() > 0 {
                        assert(stack_names(sub@, st + 1) =~= stack_names(sub@, st).drop_last());
                    } else {
                        assert(stack_names(sub@, st + 1) =~= stack_names(sub@, st));
                    }
                }
                if stack.len() > 0 {
                    stack.pop();
                }
            },
            ScanEvent::Other => {
                proof {
                    assert(stack_names(sub@, st + 1) =~= stack_names(sub@, st));
                }
            },
            ScanEvent::Eof => {
                push_final_progress(progress, Ghost(old(progress)@), last_progress);
                return Ok(not_found_result());
            },
            ScanEvent::Failed => {
                let p_err = scanner_position(&s);
                proof {
                    assert(spec_search_scan_failed(sub@, qb@, tb@, st));
                }
                return Err(NavError::ScanFailed { pos: (s0 + p_err) as u64 });
            },
        }
    }
    push_final_progress(progress, Ghost(old(progress)@), last_progress);
    Ok(not_found_result())
}

/// Appends the mandatory final `100` emission.
fn push_final_progress(progress: &mut Vec<u64>, base: Ghost<Seq<u64>>, last: u64)
    requires
        spec_progress_extended(base@, old(progress)@),
        last <= 100,
        forall|k: int|
            base@.len() <= k < old(progress)@.len() ==> #[trigger] old(progress)@[k] <= last,
    ensures
        spec_progress_extended(base@, final(progress)@),
        final(progress)@.len() > base@.len(),
        final(progress)@.last() == 100,
        final(progress)@ == old(progress)@.push(100),
{
    let ghost pre = progress@;
    progress.push(100);
    proof {
        assert(progress@.take(base@.len() as int) =~= pre.take(base@.len() as int));
    }
}

/// Appends one coalesced progress emission: only a percentage above the
/// previous one is recorded.
fn push_progress_step(progress: &mut Vec<u64>, base: Ghost<Seq<u64>>, last: &mut u64, pct: u64)
    requires
        spec_progress_extended(base@, old(progress)@),
        *old(last) <= 100,
        pct <= 100,
        forall|k: int|
            base@.len() <= k < old(progress)@.len() ==> #[trigger] old(progress)@[k] <= *old(last),
    ensures
        spec_progress_extended(base@, final(progress)@),
        *final(last) <= 100,
        forall|k: int|
            base@.len() <= k < final(progress)@.len() ==> #[trigger] final(progress)@[k]
                <= *final(last),
        final(progress)@ == old(progress)@ || final(progress)@ == old(progress)@.push(pct),
        final(progress)@ != old(progress)@ ==> pct > *old(last),
{
    if pct > *last {
        let ghost pre = progress@;
        progress.push(pct);
        *last = pct;
        proof {
            assert(progress@.take(base@.len() as int) =~= pre.take(base@.len() as int));
        }
    }
}

/// Searches the document for the first element matching `query` under
/// `search_type`, starting at `start_offset`. Resets the cancellation token
/// first, as every search invocation does; see `search_node_internal` for
/// what the result and the progress log promise.
pub fn search_node(
    doc: &[u8],
    query: &str,
    search_type: &str,
    start_offset: u64,
    cancel: &CancelToken,
    progress: &mut Vec<u64>,
) -> (r: Result<SearchResult, NavError>)
    requires
        doc@.len() < u64::MAX,
    ensures
        spec_progress_extended(old(progress)@, final(progress)@),
        spec_progress_values(doc@, start_offset as int, old(progress)@, final(progress)@),
        r matches Ok(res) ==> final(progress)@.len() > old(progress)@.len(),
        r matches Ok(res) ==> final(progress)@.last() == 100,
        r matches Ok(res) ==> spec_search_result(
            doc@,
            query.spec_bytes(),
            search_type.spec_bytes(),
            start_offset as int,
            res,
        ),
        r matches Err(e) ==> e is ScanFailed,
        r matches Err(NavError::ScanFailed { pos }) ==> ({
            let s0 = spec_sub_start(doc@, start_offset as int);
            let sub = doc@.skip(s0);
            exists|j: int|
                #[trigger] spec_search_scan_failed(
                    sub,
                    spec_lower_seq(query.spec_bytes()),
                    spec_lower_seq(search_type.spec_bytes()),
                    j,
                ) && pos as int == s0 + scan_pos(sub, j + 1)
        }),
{
    cancel.reset();
    search_node_internal(doc, query, search_type, start_offset, cancel, progress)
}

} // verus!
