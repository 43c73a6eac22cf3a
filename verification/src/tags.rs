//! The tag classifier: given the raw bytes of one complete `<...>` tag,
//! determine its name, kind and byte length. Used only by the backward
//! scanner, which parses tags directly from bytes without a tokenizer.

use vstd::prelude::*;
use crate::text::{lossy_of, lossy_decode};

verus! {

/// Kind of a classified tag.
#[derive(Debug, PartialEq, Eq, Structural, Clone, Copy)]
pub enum TagKind {
    /// `<name ...>`
    Open,
    /// `</name ...>`
    Close,
    /// `<name ... />`
    Empty,
}

/// Bytes that end a tag name: space, tab, newline, carriage return,
/// `>` and `/`.
pub open spec fn spec_is_name_delim(b: u8) -> bool {
    b == 32 || b == 9 || b == 10 || b == 13 || b == 62 || b == 47
}

/// Length of the leading run of non-delimiter bytes.
pub open spec fn spec_name_len(b: Seq<u8>) -> int
    decreases b.len(),
{
    if b.len() == 0 {
        0
    } else if spec_is_name_delim(b[0]) {
        0
    } else {
        1 + spec_name_len(b.skip(1))
    }
}

/// The tag name: the bytes before the first delimiter.
pub open spec fn spec_tag_name(b: Seq<u8>) -> Seq<u8> {
    b.take(spec_name_len(b))
}

/// What classification assigns to a complete tag slice `<...>`: `None` for
/// processing instructions (`<?`) and comment/doctype/CDATA markers (`<!`)
/// and for anything shorter than three bytes; otherwise the name bytes, the
/// kind, and the byte length of the whole slice.
pub open spec fn spec_classify(s: Seq<u8>) -> Option<(Seq<u8>, TagKind, int)> {
    if s.len() < 3 {
        None
    } else if s[1] == 63 || s[1] == 33 {  // '?' or '!'
        None
    } else if s[1] == 47 {  // '/'
        Some((spec_tag_name(s.skip(2)), TagKind::Close, s.len() as int))
    } else if s[s.len() - 2] == 47 {  // '/' before the closing '>'
        Some((spec_tag_name(s.skip(1)), TagKind::Empty, s.len() as int))
    } else {
        Some((spec_tag_name(s.skip(1)), TagKind::Open, s.len() as int))
    }
}

proof fn lemma_name_len_at(b: Seq<u8>, k: int)
    requires
        0 <= k <= b.len(),
        forall|i: int| 0 <= i < k ==> !spec_is_name_delim(b[i]),
        k == b.len() || spec_is_name_delim(b[k]),
    ensures
        spec_name_len(b) == k,
    decreases k,
{
    if k == 0 {
    } else {
        assert(!spec_is_name_delim(b[0]));
        let t = b.skip(1);
        assert(forall|i: int| 0 <= i < k - 1 ==> t[i] == b[i + 1]);
        lemma_name_len_at(t, k - 1);
    }
}

fn is_name_delim(b: u8) -> (r: bool)
    ensures
        r == spec_is_name_delim(b),
{
    b == 32 || b == 9 || b == 10 || b == 13 || b == 62 || b == 47
}

/// Scans bytes until a delimiter and returns the tag name, lossily decoded.
pub fn extract_tag_name_from_bytes(bytes: &[u8]) -> (r: String)
    ensures
        r@ == lossy_of(spec_tag_name(bytes@)),
{
    let n: usize = bytes.len();
    let mut i: usize = 0;
    while i < n
        invariant
            n == bytes@.len(),
            i <= n,
            forall|j: int| 0 <= j < i ==> !spec_is_name_delim(bytes@[j]),
        decreases n - i,
    {
        if is_name_delim(bytes[i]) {
            proof {
                lemma_name_len_at(bytes@, i as int);
                assert(bytes@.take(i as int) =~= bytes@.subrange(0, i as int));
            }
            return lossy_decode(vstd::slice::slice_subrange(bytes, 0, i));
        }
        i += 1;
    }
    proof {
        lemma_name_len_at(bytes@, n as int);
        assert(bytes@.take(n as int) =~= bytes@);
    }
    lossy_decode(bytes)
}

/// Classifies a complete tag slice `<...>` into `(name, kind, byte_len)`;
/// `None` for processing instructions and comment/doctype/CDATA markers.
pub fn classify_tag(slice: &[u8]) -> (r: Option<(String, TagKind, usize)>)
    ensures
        match spec_classify(slice@) {
            Option::None => r is None,
            Option::Some(t) => {
                &&& r matches Some(v)
                &&& v.0@ == lossy_of(t.0)
                &&& v.1 == t.1
                &&& v.2 as int == t.2
            },
        },
{
    let n: usize = slice.len();
    if n < 3 {
        return None;
    }
    if slice[1] == 63 || slice[1] == 33 {
        return None;
    }
    if slice[1] == 47 {
        // Closing tag `</name ...>`
        let rest = vstd::slice::slice_subrange(slice, 2, n);
        proof {
            assert(rest@ =~= slice@.skip(2));
        }
        let name = extract_tag_name_from_bytes(rest);
        Some((name, TagKind::Close, n))
    } else if slice[n - 2] == 47 {
        // Self-closing tag `<name ... />`
        let rest = vstd::slice::slice_subrange(slice, 1, n);
        proof {
            assert(rest@ =~= slice@.skip(1));
        }
        let name = extract_tag_name_from_bytes(rest);
        Some((name, TagKind::Empty, n))
    } else {
        // Opening tag `<name ...>`
        let rest = vstd::slice::slice_subrange(slice, 1, n);
        proof {
            assert(rest@ =~= slice@.skip(1));
        }
        let name = extract_tag_name_from_bytes(rest);
        Some((name, TagKind::Open, n))
    }
}

} // verus!
