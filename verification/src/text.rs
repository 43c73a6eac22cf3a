//! Text decoding: raw bytes become display text by lossy UTF-8 decoding,
//! which never fails (invalid sequences are replaced).

use vstd::prelude::*;
use crate::ascii::spec_lower;

verus! {

/// The character sequence that lossy UTF-8 decoding assigns to `bytes`.
pub uninterp spec fn lossy_of(bytes: Seq<u8>) -> Seq<char>;

/// Relies on alloc's `String::from_utf8_lossy`: the decoding is a pure
/// function of the bytes alone — valid UTF-8 passes through, invalid
/// sequences become replacement characters — and an empty input decodes
/// to the empty string.
#[verifier::external_body]
pub fn lossy_decode(bytes: &[u8]) -> (r: String)
    ensures
        r@ == lossy_of(bytes@),
        bytes@.len() == 0 ==> r@.len() == 0,
{
    String::from_utf8_lossy(bytes).to_string()
}

/// Image of a byte sequence under ASCII case folding.
pub open spec fn spec_lower_seq(s: Seq<u8>) -> Seq<u8> {
    s.map_values(|b: u8| spec_lower(b))
}

/// ASCII lower-casing of a whole byte string; used to normalise queries and
/// selectors before matching (byte-wise, no locale-aware casing).
pub fn lower_bytes(s: &[u8]) -> (r: Vec<u8>)
    ensures
        r@ == spec_lower_seq(s@),
{
    let mut out: Vec<u8> = Vec::new();
    let mut i: usize = 0;
    while i < s.len()
        invariant
            i <= s@.len(),
            out@ == spec_lower_seq(s@.take(i as int)),
        decreases s@.len() - i,
    {
        out.push(crate::ascii::lower_byte(s[i]));
        proof {
            assert(s@.take(i + 1).map_values(|b: u8| spec_lower(b)) =~= s@.take(i as int)
                .map_values(|b: u8| spec_lower(b)).push(spec_lower(s@[i as int])));
        }
        i += 1;
    }
    proof {
        assert(s@.take(s@.len() as int) =~= s@);
    }
    out
}

} // verus!
