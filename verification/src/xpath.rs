//! XPath reconstruction and ancestor lookup: replay the forward scanner
//! from the start of the document, tracking the ancestor stack, until the
//! reported position reaches the target offset; the stack then names the
//! open ancestor chain at that offset.

use vstd::prelude::*;
use vstd::string::{StringExecFns, StrSliceExecFns, StringSliceAdditionalSpecFns};
use crate::{NavError, SearchResult};
use crate::extract::{extract_and_build_result, spec_built};
use crate::scan::{
    ScanEvent, Scanner, scan_event, scan_pos, scanner_new, scanner_next, scanner_position,
    stack_entries, stack_names, spec_xpath,
};
use crate::search::{find_element_end_pos, join_path, spec_end_scan};
use crate::text::{lossy_of, lossy_decode};

verus! {

/// The rendered path of an ancestor stack: slash-joined names, or the bare
/// `/` for the empty stack.
pub open spec fn spec_prefix_path(names: Seq<Seq<u8>>) -> Seq<char> {
    if names.len() == 0 {
        seq!['/']
    } else {
        spec_xpath(names)
    }
}

/// A replay of the scan stopped at step `m` for `target`: every earlier
/// event was reported before the target offset, and the stop was either
/// reaching the target, the end of input, a tokenizer failure, or the scan
/// cap.
pub open spec fn spec_replay_stop(d: Seq<u8>, target: int, m: int) -> bool {
    &&& 0 <= m
    &&& forall|j: int| 0 <= j < m ==> #[trigger] scan_pos(d, j) < target
    &&& (scan_pos(d, m) >= target || scan_event(d, m) is Eof || scan_event(d, m) is Failed || m
        >= d.len())
}

/// Replays the scan from the start of the document until the reported
/// position reaches `target_offset`, then renders the ancestor stack as a
/// slash-joined path (`/` alone when nothing is open). Tokenizer failures
/// end the replay early, best effort, never an error.
pub fn reconstruct_xpath(doc: &[u8], target_offset: u64) -> (r: String)
    ensures
        exists|m: int|
            #[trigger] spec_replay_stop(doc@, target_offset as int, m) && r@ == spec_prefix_path(
                stack_names(doc@, m),
            ),
{
    let mut s = scanner_new(doc);
    let mut buf: Vec<u8> = Vec::new();
    let mut stack: Vec<String> = Vec::new();
    let mut fuel: usize = doc.len();

    while fuel > 0
        invariant
            s.tape() == doc@,
            0 <= s.step(),
            doc@.len() as int - s.step() <= fuel as int,
            stack@.len() == stack_names(doc@, s.step()).len(),
            forall|k: int| 0 <= k < stack@.len() ==> stack@[k]@ == lossy_of(
                stack_names(doc@, s.step())[k],
            ),
            forall|j: int| 0 <= j < s.step() ==> #[trigger] scan_pos(doc@, j) < target_offset
                as int,
        decreases fuel,
    {
        fuel -= 1;
        let ghost st = s.step();
        let pos = scanner_position(&s);
        if pos as u64 >= target_offset {
            proof {
                assert(spec_replay_stop(doc@, target_offset as int, st));
            }
            return finish_path(&stack, Ghost(stack_names(doc@, st)));
        }
        let ev = scanner_next(&mut s, &mut buf);
        match ev {
            ScanEvent::Open { name, .. } => {
                let nm = lossy_decode(name.as_slice());
                stack.push(nm);
                proof {
                    assert(stack_names(doc@, st + 1) =~= stack_names(doc@, st).push(name@));
                }
            },
            ScanEvent::Close { .. } => {
                proof {
                    if stack_names(doc@, st).len() > 0 {
                        assert(stack_names(doc@, st + 1) =~= stack_names(doc@, st).drop_last());
                    } else {
                        assert(stack_names(doc@, st + 1) =~= stack_names(doc@, st));
                    }
                }
                if stack.len() > 0 {
                    stack.pop();
                }
            },
            ScanEvent::Eof => {
                proof {
                    assert(stack_names(doc@, st + 1) =~= stack_names(doc@, st));
                    assert(spec_replay_stop(doc@, target_offset as int, st));
                }
                return finish_path(&stack, Ghost(stack_names(doc@, st)));
            },
            ScanEvent::Failed => {
                proof {
                    assert(stack_names(doc@, st + 1) =~= stack_names(doc@, st));
                    assert(spec_replay_stop(doc@, target_offset as int, st));
                }
                return finish_path(&stack, Ghost(stack_names(doc@, st)));
            },
            _ => {
                proof {
                    assert(stack_names(doc@, st + 1) =~= stack_names(doc@, st));
                }
            },
        }
    }
    let ghost st = s.step();
    proof {
        assert(spec_replay_stop(doc@, target_offset as int, st));
    }
    finish_path(&stack, Ghost(stack_names(doc@, st)))
}

/// Renders a decoded ancestor stack: `/` alone when it is empty.
fn finish_path(stack: &Vec<String>, names: Ghost<Seq<Seq<u8>>>) -> (r: String)
    requires
        stack@.len() == names@.len(),
        forall|k: int| 0 <= k < names@.len() ==> stack@[k]@ == lossy_of(names@[k]),
    ensures
        r@ == spec_prefix_path(names@),
{
    if stack.len() == 0 {
        let r = "/".to_owned();
        proof {
            reveal_strlit("/");
            assert(r@ =~= seq!['/']);
        }
        r
    } else {
        join_path(stack, names)
    }
}

/// The ancestor path to `offset`, with `/tag_name` appended.
pub fn resolve_xpath(doc: &[u8], offset: u64, tag_name: &str) -> (r: String)
    ensures
        exists|m: int|
            #[trigger] spec_replay_stop(doc@, offset as int, m) && r@ == spec_prefix_path(
                stack_names(doc@, m),
            ) + seq!['/'] + tag_name@,
{
    let parent = reconstruct_xpath(doc, offset);
    let ghost m = choose|m: int|
        #[trigger] spec_replay_stop(doc@, offset as int, m) && parent@ == spec_prefix_path(
            stack_names(doc@, m),
        );
    let slash = "/";
    proof {
        reveal_strlit("/");
        assert(slash@ =~= seq!['/']);
    }
    let mut out = parent;
    out.append(slash);
    out.append(tag_name);
    out
}

/// The recorded stack mirrors the ghost entry stack after `m` events: same
/// length, each name lossily decoded, each position as reported and within
/// the document.
pub open spec fn spec_entries_match(d: Seq<u8>, m: int, stack: Seq<(String, usize)>) -> bool {
    &&& stack.len() == stack_entries(d, m).len()
    &&& forall|k: int|
        0 <= k < stack.len() ==> ((#[trigger] stack[k]).0@ == lossy_of(stack_entries(d, m)[k].0)
            && stack[k].1 as int == stack_entries(d, m)[k].1 && stack[k].1 <= d.len())
}

/// Replays the scan from the start until the reported position reaches
/// `target`, recording each open ancestor's name and reported position
/// into `stack`.
fn replay_entries(doc: &[u8], target: u64, stack: &mut Vec<(String, usize)>) -> (m: Ghost<int>)
    requires
        old(stack)@.len() == 0,
    ensures
        spec_replay_stop(doc@, target as int, m@),
        spec_entries_match(doc@, m@, final(stack)@),
{
    let mut s = scanner_new(doc);
    let mut buf: Vec<u8> = Vec::new();
    let mut fuel: usize = doc.len();

    while fuel > 0
        invariant
            s.tape() == doc@,
            0 <= s.step(),
            doc@.len() as int - s.step() <= fuel as int,
            spec_entries_match(doc@, s.step(), stack@),
            forall|j: int| 0 <= j < s.step() ==> #[trigger] scan_pos(doc@, j) < target as int,
        decreases fuel,
    {
        fuel -= 1;
        let ghost st = s.step();
        let pos = scanner_position(&s);
        if pos as u64 >= target {
            proof {
                assert(spec_replay_stop(doc@, target as int, st));
            }
            return Ghost(st);
        }
        let ev = scanner_next(&mut s, &mut buf);
        match ev {
            ScanEvent::Open { name, .. } => {
                let nm = lossy_decode(name.as_slice());
                let ghost prev = stack@;
                stack.push((nm, pos));
                proof {
                    assert(stack_entries(doc@, st + 1) =~= stack_entries(doc@, st).push(
                        (name@, scan_pos(doc@, st)),
                    ));
                    assert forall|k: int| 0 <= k < stack@.len() implies ((#[trigger] stack@[k]).0@
                        == lossy_of(stack_entries(doc@, st + 1)[k].0) && stack@[k].1 as int
                        == stack_entries(doc@, st + 1)[k].1 && stack@[k].1 <= doc@.len()) by {
                        if k < prev.len() {
                            assert(stack@[k] == prev[k]);
                        } else {
                            assert(stack@[k] == (nm, pos));
                        }
                    }
                    assert(spec_entries_match(doc@, st + 1, stack@));
                }
            },
            ScanEvent::Close { .. } => {
                let ghost prev = stack@;
                proof {
                    if stack_entries(doc@, st).len() > 0 {
                        assert(stack_entries(doc@, st + 1) =~= stack_entries(doc@, st).drop_last());
                    } else {
                        assert(stack_entries(doc@, st + 1) =~= stack_entries(doc@, st));
                    }
                }
                if stack.len() > 0 {
                    stack.pop();
                }
                proof {
                    assert forall|k: int| 0 <= k < stack@.len() implies ((#[trigger] stack@[k]).0@
                        == lossy_of(stack_entries(doc@, st + 1)[k].0) && stack@[k].1 as int
                        == stack_entries(doc@, st + 1)[k].1 && stack@[k].1 <= doc@.len()) by {
                        assert(stack@[k] == prev[k]);
                    }
                    assert(spec_entries_match(doc@, st + 1, stack@));
                }
            },
            ScanEvent::Eof => {
                proof {
                    assert(spec_replay_stop(doc@, target as int, st));
                    assert(spec_entries_match(doc@, st, stack@));
                }
                return Ghost(st);
            },
            ScanEvent::Failed => {
                proof {
                    assert(spec_replay_stop(doc@, target as int, st));
                    assert(spec_entries_match(doc@, st, stack@));
                }
                return Ghost(st);
            },
            _ => {
                proof {
                    assert(stack_entries(doc@, st + 1) =~= stack_entries(doc@, st));
                }
            },
        }
    }
    let ghost st = s.step();
    proof {
        assert(spec_replay_stop(doc@, target as int, st));
    }
    Ghost(st)
}

/// Whether event `k` is an opening tag whose decoded name is `nm`.
pub open spec fn spec_opens_name(tape: Seq<u8>, k: int, nm: Seq<char>) -> bool {
    scan_event(tape, k) matches ScanEvent::Open { name, .. } && lossy_of(name@) == nm
}

/// A seek that walked to event `j` without passing an opening tag named
/// `nm`.
pub open spec fn spec_seek_stopped(tape: Seq<u8>, nm: Seq<char>, j: int) -> bool {
    &&& 0 <= j
    &&& forall|k: int| 0 <= k < j ==> !spec_opens_name(tape, k, nm)
}

/// Seeks forward to the first opening tag named `anc_name`; `base` is only
/// for the byte position reported with a tokenizer failure. Failure is
/// tied to what the scan saw: end of input, the event budget, or a
/// tokenizer error, each before any tag of that name.
fn seek_ancestor_open(
    s2: &mut Scanner,
    buf: &mut Vec<u8>,
    anc_name: &String,
    fuel: usize,
    base: usize,
) -> (r: Result<(), NavError>)
    requires
        old(s2).step() == 0,
        base + old(s2).tape().len() <= u64::MAX,
    ensures
        final(s2).tape() == old(s2).tape(),
        r matches Ok(_) ==> ({
            &&& final(s2).step() >= 1
            &&& spec_opens_name(old(s2).tape(), final(s2).step() - 1, anc_name@)
            &&& spec_seek_stopped(old(s2).tape(), anc_name@, final(s2).step() - 1)
        }),
        r matches Err(e) ==> e is AncestorSeekFailed || e is ScanFailed,
        (r matches Err(e) && e is AncestorSeekFailed) ==> exists|j: int|
            #[trigger] spec_seek_stopped(old(s2).tape(), anc_name@, j) && (scan_event(
                old(s2).tape(),
                j,
            ) is Eof || j >= fuel),
        r matches Err(NavError::ScanFailed { pos }) ==> exists|j: int|
            #[trigger] spec_seek_stopped(old(s2).tape(), anc_name@, j) && scan_event(
                old(s2).tape(),
                j,
            ) is Failed && pos as int == base + scan_pos(old(s2).tape(), j + 1),
{
    let mut left: usize = fuel;
    while left > 0
        invariant
            s2.tape() == old(s2).tape(),
            base + s2.tape().len() <= u64::MAX,
            s2.step() == fuel - left,
            left <= fuel,
            forall|k: int| 0 <= k < s2.step() ==> !spec_opens_name(s2.tape(), k, anc_name@),
        decreases left,
    {
        left -= 1;
        let ghost st = s2.step();
        let ev = scanner_next(s2, buf);
        match ev {
            ScanEvent::Open { name, .. } => {
                let nm = lossy_decode(name.as_slice());
                if nm == *anc_name {
                    return Ok(());
                }
            },
            ScanEvent::Eof => {
                proof {
                    assert(spec_seek_stopped(s2.tape(), anc_name@, st));
                }
                return Err(NavError::AncestorSeekFailed);
            },
            ScanEvent::Failed => {
                let p_err = scanner_position(s2);
                proof {
                    assert(spec_seek_stopped(s2.tape(), anc_name@, st));
                }
                return Err(NavError::ScanFailed { pos: base as u64 + p_err as u64 });
            },
            _ => {},
        }
    }
    proof {
        assert(spec_seek_stopped(s2.tape(), anc_name@, s2.step()));
    }
    Err(NavError::AncestorSeekFailed)
}

/// What a located ancestor is: the replay to the child offset stopped with
/// the requested depth inside its recorded ancestor stack; the result's
/// path joins the stack up to and including that ancestor; the rescan of
/// the document from the ancestor's recorded position found its opening
/// tag again at event `j`, first of its name; and the element was built
/// exactly from that position and the end-locating walk after the re-found
/// tag.
pub open spec fn spec_ancestor_found(d: Seq<u8>, target: int, depth: int, res: SearchResult) -> bool {
    exists|m: int, j: int|
        #![trigger spec_replay_stop(d, target, m), spec_seek_stopped(d.skip(stack_entries(d, m)[depth].1), lossy_of(stack_entries(d, m)[depth].0), j)]
        {
            &&& spec_replay_stop(d, target, m)
            &&& 0 <= depth < stack_entries(d, m).len()
            &&& stack_entries(d, m)[depth].1 < target
            &&& res.xpath@ == spec_xpath(
                stack_entries(d, m).take(depth + 1).map_values(|p: (Seq<u8>, int)| p.0),
            )
            &&& spec_opens_name(
                d.skip(stack_entries(d, m)[depth].1),
                j,
                lossy_of(stack_entries(d, m)[depth].0),
            )
            &&& spec_seek_stopped(
                d.skip(stack_entries(d, m)[depth].1),
                lossy_of(stack_entries(d, m)[depth].0),
                j,
            )
            &&& spec_built(
                d,
                res.xpath@,
                stack_entries(d, m)[depth].1,
                stack_entries(d, m)[depth].1 + spec_end_scan(
                    d.skip(stack_entries(d, m)[depth].1),
                    j + 1,
                    lossy_of(stack_entries(d, m)[depth].0),
                    1,
                    scan_pos(d.skip(stack_entries(d, m)[depth].1), j + 1),
                    (d.len() - stack_entries(d, m)[depth].1) as nat,
                ),
                res,
            )
        }
}

/// Finds the ancestor at `ancestor_depth` (0 is the document root) of the
/// element at `child_offset`: replays the scan to the offset recording
/// `(name, position)` pairs, selects the ancestor, seeks back to its
/// recorded position and locates its end. A depth at or beyond the stack
/// is an explicit error, never a clamp.
pub fn find_parent(doc: &[u8], child_offset: u64, ancestor_depth: u32) -> (r: Result<
    SearchResult,
    NavError,
>)
    requires
        doc@.len() < u64::MAX,
    ensures
        r matches Ok(res) ==> res.found && spec_ancestor_found(
            doc@,
            child_offset as int,
            ancestor_depth as int,
            res,
        ),
        r matches Err(e) ==> e is DepthOutOfRange || e is ScanFailed || e is AncestorSeekFailed,
        (r matches Err(e) && e is DepthOutOfRange) ==> exists|m: int|
            #[trigger] spec_replay_stop(doc@, child_offset as int, m) && ancestor_depth as int
                >= stack_entries(doc@, m).len(),
        (r matches Err(e) && e is AncestorSeekFailed) ==> exists|m: int, j: int|
            #![trigger spec_replay_stop(doc@, child_offset as int, m), spec_seek_stopped(doc@.skip(stack_entries(doc@, m)[ancestor_depth as int].1), lossy_of(stack_entries(doc@, m)[ancestor_depth as int].0), j)]
            {
                &&& spec_replay_stop(doc@, child_offset as int, m)
                &&& ancestor_depth < stack_entries(doc@, m).len()
                &&& spec_seek_stopped(
                    doc@.skip(stack_entries(doc@, m)[ancestor_depth as int].1),
                    lossy_of(stack_entries(doc@, m)[ancestor_depth as int].0),
                    j,
                )
                &&& (scan_event(
                    doc@.skip(stack_entries(doc@, m)[ancestor_depth as int].1),
                    j,
                ) is Eof || j >= doc@.len() - stack_entries(doc@, m)[ancestor_depth as int].1)
            },
        r matches Err(NavError::ScanFailed { pos }) ==> exists|m: int, j: int|
            #![trigger spec_replay_stop(doc@, child_offset as int, m), spec_seek_stopped(doc@.skip(stack_entries(doc@, m)[ancestor_depth as int].1), lossy_of(stack_entries(doc@, m)[ancestor_depth as int].0), j)]
            {
                &&& spec_replay_stop(doc@, child_offset as int, m)
                &&& ancestor_depth < stack_entries(doc@, m).len()
                &&& spec_seek_stopped(
                    doc@.skip(stack_entries(doc@, m)[ancestor_depth as int].1),
                    lossy_of(stack_entries(doc@, m)[ancestor_depth as int].0),
                    j,
                )
                &&& scan_event(
                    doc@.skip(stack_entries(doc@, m)[ancestor_depth as int].1),
                    j,
                ) is Failed
                &&& pos as int == stack_entries(doc@, m)[ancestor_depth as int].1 + scan_pos(
                    doc@.skip(stack_entries(doc@, m)[ancestor_depth as int].1),
                    j + 1,
                )
            },
{
    let n: usize = doc.len();
    let mut stack: Vec<(String, usize)> = Vec::new();
    let m = replay_entries(doc, child_offset, &mut stack);
    let ghost entries = stack_entries(doc@, m@);

    // The ancestor at index `depth` from the root; depth 0 is the root.
    let depth: usize = ancestor_depth as usize;
    if depth >= stack.len() {
        proof {
            assert(spec_replay_stop(doc@, child_offset as int, m@) && ancestor_depth as int
                >= stack_entries(doc@, m@).len());
        }
        return Err(NavError::DepthOutOfRange);
    }
    proof {
        assert(stack@[depth as int].0@ == lossy_of(entries[depth as int].0));
    }

    let anc_name: String = stack[depth].0.clone();
    let anc_start: usize = stack[depth].1;

    // The path up to and including the target ancestor.
    let ghost prefix_names = entries.take(depth as int + 1).map_values(|p: (Seq<u8>, int)| p.0);
    let mut prefix: Vec<String> = Vec::new();
    let mut k: usize = 0;
    while k <= depth
        invariant
            depth < stack@.len(),
            stack@.len() <= usize::MAX,
            spec_entries_match(doc@, m@, stack@),
            entries == stack_entries(doc@, m@),
            prefix_names == entries.take(depth as int + 1).map_values(|p: (Seq<u8>, int)| p.0),
            k <= depth + 1,
            prefix@.len() == k,
            forall|t: int| 0 <= t < k ==> #[trigger] prefix@[t]@ == lossy_of(prefix_names[t]),
        decreases depth - k + 1,
    {
        prefix.push(stack[k].0.clone());
        k += 1;
    }
    let xpath = join_path(&prefix, Ghost(prefix_names));

    // Seek to the ancestor's recorded offset and re-read its opening tag,
    // then locate its matching close.
    let sub: &[u8] = vstd::slice::slice_subrange(doc, anc_start, n);
    proof {
        assert(sub@ =~= doc@.skip(anc_start as int));
    }
    let mut s2 = scanner_new(sub);
    let mut buf2: Vec<u8> = Vec::new();
    match seek_ancestor_open(&mut s2, &mut buf2, &anc_name, sub.len(), anc_start) {
        Ok(()) => {},
        Err(e) => {
            proof {
                let tgt = lossy_of(entries[depth as int].0);
                if e is AncestorSeekFailed {
                    let j = choose|j: int|
                        spec_seek_stopped(sub@, anc_name@, j) && (scan_event(sub@, j) is Eof || j
                            >= sub@.len());
                    assert(spec_seek_stopped(
                        doc@.skip(stack_entries(doc@, m@)[ancestor_depth as int].1),
                        lossy_of(stack_entries(doc@, m@)[ancestor_depth as int].0),
                        j,
                    ));
                    assert(spec_replay_stop(doc@, child_offset as int, m@));
                } else {
                    let j = choose|j: int|
                        spec_seek_stopped(sub@, anc_name@, j) && scan_event(sub@, j) is Failed
                            && e->ScanFailed_pos as int == anc_start + scan_pos(sub@, j + 1);
                    assert(spec_seek_stopped(
                        doc@.skip(stack_entries(doc@, m@)[ancestor_depth as int].1),
                        lossy_of(stack_entries(doc@, m@)[ancestor_depth as int].0),
                        j,
                    ));
                    assert(scan_event(
                        doc@.skip(stack_entries(doc@, m@)[ancestor_depth as int].1),
                        j,
                    ) is Failed);
                    assert(spec_replay_stop(doc@, child_offset as int, m@));
                }
            }
            return Err(e);
        },
    }

    let ghost jj = s2.step() - 1;
    let ae_rel = find_element_end_pos(&mut s2, &mut buf2, &anc_name, sub.len());
    let res = extract_and_build_result(
        doc,
        anc_start as u64,
        (anc_start + ae_rel) as u64,
        xpath.as_str(),
    );
    proof {
        let dep = depth as int;
        crate::scan::lemma_entry_position(doc@, m@, dep);
        let jk = choose|j: int|
            0 <= j < m@ && stack_entries(doc@, m@)[dep].1 == #[trigger] scan_pos(doc@, j);
        assert(scan_pos(doc@, jk) < child_offset as int);
        assert(stack_entries(doc@, m@)[dep].1 < child_offset as int);
        assert(spec_opens_name(
            doc@.skip(stack_entries(doc@, m@)[dep].1),
            jj,
            lossy_of(stack_entries(doc@, m@)[dep].0),
        ));
        assert(spec_seek_stopped(
            doc@.skip(stack_entries(doc@, m@)[dep].1),
            lossy_of(stack_entries(doc@, m@)[dep].0),
            jj,
        ));
        assert(ae_rel as int == spec_end_scan(
            doc@.skip(stack_entries(doc@, m@)[dep].1),
            jj + 1,
            lossy_of(stack_entries(doc@, m@)[dep].0),
            1,
            scan_pos(doc@.skip(stack_entries(doc@, m@)[dep].1), jj + 1),
            (doc@.len() - stack_entries(doc@, m@)[dep].1) as nat,
        ));
        assert(spec_built(
            doc@,
            res.xpath@,
            stack_entries(doc@, m@)[dep].1,
            stack_entries(doc@, m@)[dep].1 + spec_end_scan(
                doc@.skip(stack_entries(doc@, m@)[dep].1),
                jj + 1,
                lossy_of(stack_entries(doc@, m@)[dep].0),
                1,
                scan_pos(doc@.skip(stack_entries(doc@, m@)[dep].1), jj + 1),
                (doc@.len() - stack_entries(doc@, m@)[dep].1) as nat,
            ),
            res,
        ));
        assert(spec_replay_stop(doc@, child_offset as int, m@));
    }
    Ok(res)
}

} // verus!
