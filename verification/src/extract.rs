//! Boundary resolution and context extraction.
//!
//! Positions reported by either scanner are approximate. The resolver turns
//! them into exact offsets by local, bounded byte scans: backward one byte
//! for the opening `<`, forward a small window otherwise, and forward a
//! small window for the closing `>`. The extractor then reads the element's
//! raw text, bounded context windows around it, and the 1-based line number
//! of the exact start.

use vstd::prelude::*;
use crate::SearchResult;
use crate::text::{lossy_of, lossy_decode};

verus! {

/// Backward slack for the start check, and the size of each context window.
pub const CONTEXT_WINDOW: u64 = 2000;

/// First index in `[from, to)` holding `target`, if any.
pub open spec fn spec_find_byte(d: Seq<u8>, target: u8, from: int, to: int) -> Option<int>
    recommends
        0 <= from,
        to <= d.len(),
    decreases to - from,
{
    if from >= to {
        None
    } else if d[from] == target {
        Some(from)
    } else {
        spec_find_byte(d, target, from + 1, to)
    }
}

/// The exact offset of the element's opening `<`, resolved from the
/// approximate start `a`: if the byte just before `a` is `<`, that is the
/// start; otherwise the approximate position fell before leading whitespace,
/// and the first `<` within a 256-byte forward window is the start; if
/// neither helps, `a` stands.
pub open spec fn spec_exact_start(d: Seq<u8>, a: int) -> int
    recommends
        0 <= a <= d.len(),
{
    if a == 0 {
        0
    } else if d[a - 1] == 60 {  // '<'
        a - 1
    } else {
        match spec_find_byte(d, 60, a, if a + 256 < d.len() { a + 256 } else { d.len() as int }) {
            Some(i) => i,
            None => a,
        }
    }
}

/// The exact offset one past the element's closing `>`, resolved from the
/// approximate end `ae`: the first `>` in a 128-byte window starting one
/// byte before `ae` ends the element; if none is found, `ae` stands.
pub open spec fn spec_exact_end(d: Seq<u8>, ae: int) -> int
    recommends
        0 <= ae <= d.len(),
{
    let fs = if ae > 0 {
        ae - 1
    } else {
        0
    };
    match spec_find_byte(d, 62, fs, if fs + 128 < d.len() { fs + 128 } else { d.len() as int }) {
        Some(i) => i + 1,
        None => ae,
    }
}

/// Count of newline bytes in `d`.
pub open spec fn spec_newlines(d: Seq<u8>) -> int
    decreases d.len(),
{
    if d.len() == 0 {
        0
    } else {
        spec_newlines(d.drop_last()) + if d.last() == 10 {
            1int
        } else {
            0int
        }
    }
}

pub proof fn lemma_newlines_bound(d: Seq<u8>)
    ensures
        0 <= spec_newlines(d) <= d.len(),
    decreases d.len(),
{
    if d.len() > 0 {
        lemma_newlines_bound(d.drop_last());
    }
}

/// A found index lies in `[from, to)` and holds `target`; when nothing is
/// found, no index in the window holds it.
pub proof fn lemma_find_byte_range(d: Seq<u8>, target: u8, from: int, to: int)
    requires
        0 <= from,
        to <= d.len(),
    ensures
        match spec_find_byte(d, target, from, to) {
            Option::None => forall|j: int| from <= j < to ==> d[j] != target,
            Option::Some(i) => from <= i < to && d[i] == target,
        },
    decreases to - from,
{
    if from >= to {
    } else if d[from] == target {
    } else {
        lemma_find_byte_range(d, target, from + 1, to);
    }
}

/// The resolver lands on a tag: whenever the byte just before the
/// approximate start is `<`, or some `<` lies in the forward slack window,
/// the resolved exact start is the offset of a `<` — so the raw bytes read
/// back from a result's offset begin with the element's opening `<`.
pub proof fn lemma_exact_start_hits_tag(d: Seq<u8>, a: int)
    requires
        0 < a <= d.len(),
        d[a - 1] == 60 || exists|i: int|
            a <= i < (if a + 256 < d.len() {
                a + 256
            } else {
                d.len() as int
            }) && d[i] == 60,
    ensures
        0 <= spec_exact_start(d, a) < d.len(),
        d[spec_exact_start(d, a)] == 60,
{
    if d[a - 1] == 60 {
    } else {
        let to = if a + 256 < d.len() {
            a + 256
        } else {
            d.len() as int
        };
        lemma_find_byte_range(d, 60, a, to);
    }
}

/// First index in `[from, to)` of `doc` holding `target`.
pub fn find_byte(doc: &[u8], target: u8, from: usize, to: usize) -> (r: Option<usize>)
    requires
        from <= to,
        to <= doc@.len(),
    ensures
        match spec_find_byte(doc@, target, from as int, to as int) {
            Option::None => r is None,
            Option::Some(j) => r matches Some(i) && i as int == j,
        },
{
    let mut i: usize = from;
    while i < to
        invariant
            from <= i <= to,
            to <= doc@.len(),
            spec_find_byte(doc@, target, from as int, to as int) == spec_find_byte(
                doc@,
                target,
                i as int,
                to as int,
            ),
        decreases to - i,
    {
        if doc[i] == target {
            return Some(i);
        }
        i += 1;
    }
    None
}

/// Exact start offset of the element whose approximate start is `a`.
pub fn find_exact_start(doc: &[u8], a: usize) -> (r: usize)
    requires
        a <= doc@.len(),
    ensures
        r as int == spec_exact_start(doc@, a as int),
        r <= doc@.len(),
{
    if a == 0 {
        return 0;
    }
    if doc[a - 1] == 60 {
        return a - 1;
    }
    let to: usize = if doc.len() - a < 256 {
        doc.len()
    } else {
        a + 256
    };
    proof {
        lemma_find_byte_range(doc@, 60, a as int, to as int);
    }
    match find_byte(doc, 60, a, to) {
        Some(i) => i,
        None => a,
    }
}

/// Exact end offset (one past the closing `>`) of the element whose
/// approximate end is `ae`.
pub fn find_exact_end(doc: &[u8], ae: usize) -> (r: usize)
    requires
        ae <= doc@.len(),
    ensures
        r as int == spec_exact_end(doc@, ae as int),
        r <= doc@.len(),
{
    let fs: usize = if ae > 0 {
        ae - 1
    } else {
        0
    };
    let fe: usize = if doc.len() - fs < 128 {
        doc.len()
    } else {
        fs + 128
    };
    proof {
        lemma_find_byte_range(doc@, 62, fs as int, fe as int);
    }
    match find_byte(doc, 62, fs, fe) {
        Some(i) => i + 1,
        None => ae,
    }
}

/// 1-based line number of `offset`: one more than the newline bytes strictly
/// before it. Counting stops at end of document for an offset past it.
pub fn count_lines_up_to(doc: &[u8], offset: u64) -> (r: u64)
    requires
        doc@.len() < u64::MAX,
    ensures
        r as int == 1 + spec_newlines(
            doc@.take(if offset <= doc@.len() { offset as int } else { doc@.len() as int }),
        ),
{
    let bound: usize = if offset <= doc.len() as u64 {
        offset as usize
    } else {
        doc.len()
    };
    let mut count: u64 = 1;
    let mut i: usize = 0;
    while i < bound
        invariant
            bound <= doc@.len(),
            doc@.len() < u64::MAX,
            i <= bound,
            count as int == 1 + spec_newlines(doc@.take(i as int)),
        decreases bound - i,
    {
        proof {
            lemma_newlines_bound(doc@.take(i as int));
            assert(doc@.take(i + 1).drop_last() =~= doc@.take(i as int));
            assert(doc@.take(i + 1).last() == doc@[i as int]);
        }
        if doc[i] == 10 {
            count += 1;
        }
        i += 1;
    }
    count
}

/// Up to `size` bytes of the document starting at `offset`, lossily decoded;
/// short at end of document, empty past it.
pub fn read_chunk(doc: &[u8], offset: u64, size: u32) -> (r: String)
    ensures
        r@ == lossy_of(
            if offset as int >= doc@.len() {
                Seq::<u8>::empty()
            } else {
                doc@.subrange(
                    offset as int,
                    if offset + size < doc@.len() {
                        offset as int + size as int
                    } else {
                        doc@.len() as int
                    },
                )
            },
        ),
{
    let len: usize = doc.len();
    let s0: usize = if offset <= len as u64 {
        offset as usize
    } else {
        len
    };
    let avail: usize = len - s0;
    let take: usize = if (size as u64) < (avail as u64) {
        size as usize
    } else {
        avail
    };
    let window = vstd::slice::slice_subrange(doc, s0, s0 + take);
    let r = lossy_decode(window);
    proof {
        if offset as int >= doc@.len() {
            assert(window@ =~= Seq::<u8>::empty());
        } else {
            assert(window@ =~= doc@.subrange(
                offset as int,
                if offset + size < doc@.len() {
                    offset as int + size as int
                } else {
                    doc@.len() as int
                },
            ));
        }
    }
    r
}

/// Everything `extract_and_build_result` promises of a located element,
/// given the approximate boundaries `a` and `ae` the scan reported: exact
/// boundaries by local resolution (the end never before the start), the
/// element's raw text and bounded context lossily decoded, the exact start
/// offset, and its 1-based line number.
pub open spec fn spec_built(d: Seq<u8>, xp: Seq<char>, a: int, ae: int, r: SearchResult) -> bool {
    let es = spec_exact_start(d, a);
    let ee0 = spec_exact_end(d, ae);
    let ee = if ee0 < es {
        es
    } else {
        ee0
    };
    &&& r.found == true
    &&& r.xpath@ == xp
    &&& r.element_text@ == lossy_of(d.subrange(es, ee))
    &&& r.context_before@ == lossy_of(
        d.subrange(
            if es > (CONTEXT_WINDOW as int) {
                es - (CONTEXT_WINDOW as int)
            } else {
                0
            },
            es,
        ),
    )
    &&& r.context_after@ == lossy_of(
        d.subrange(
            ee,
            if ee + (CONTEXT_WINDOW as int) < d.len() {
                ee + (CONTEXT_WINDOW as int)
            } else {
                d.len() as int
            },
        ),
    )
    &&& r.offset as int == es
    &&& r.line_number as int == 1 + spec_newlines(d.take(es))
}

/// Resolves approximate boundaries to exact ones and assembles the final
/// result: element text, context windows, exact offset and line number.
pub fn extract_and_build_result(doc: &[u8], approx_start: u64, approx_end: u64, xpath: &str) -> (r:
    SearchResult)
    requires
        approx_start <= doc@.len(),
        approx_end <= doc@.len(),
        doc@.len() < u64::MAX,
    ensures
        spec_built(doc@, xpath@, approx_start as int, approx_end as int, r),
{
    let len: usize = doc.len();
    let es: usize = find_exact_start(doc, approx_start as usize);
    let ee0: usize = find_exact_end(doc, approx_end as usize);
    let ee: usize = if ee0 < es {
        es
    } else {
        ee0
    };

    let element_text = lossy_decode(vstd::slice::slice_subrange(doc, es, ee));

    let ctx_lo: usize = if es as u64 > CONTEXT_WINDOW {
        es - CONTEXT_WINDOW as usize
    } else {
        0
    };
    let context_before = lossy_decode(vstd::slice::slice_subrange(doc, ctx_lo, es));

    let ctx_hi: usize = if (len - ee) as u64 > CONTEXT_WINDOW {
        ee + CONTEXT_WINDOW as usize
    } else {
        len
    };
    let context_after = lossy_decode(vstd::slice::slice_subrange(doc, ee, ctx_hi));

    let line_number = count_lines_up_to(doc, es as u64);

    SearchResult {
        found: true,
        xpath: xpath.to_owned(),
        element_text,
        context_before,
        context_after,
        offset: es as u64,
        line_number,
    }
}

} // verus!
