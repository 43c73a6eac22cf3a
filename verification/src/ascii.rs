//! Case-insensitive byte matching: the query matcher works on raw bytes with
//! ASCII case folding only (no locale-aware casing).

use vstd::prelude::*;

verus! {

/// ASCII lower-case image of one byte: `'A'..'Z'` map to `'a'..'z'`, every
/// other byte is unchanged.
pub open spec fn spec_lower(b: u8) -> u8 {
    if 65 <= b && b <= 90 {
        (b + 32) as u8
    } else {
        b
    }
}

/// `a` and `b` agree under ASCII case folding wherever both are defined.
pub open spec fn spec_zip_eq_ci(a: Seq<u8>, b: Seq<u8>) -> bool {
    forall|i: int| 0 <= i < a.len() && i < b.len() ==> spec_lower(a[i]) == spec_lower(b[i])
}

/// `a` and `b` are equal up to ASCII case.
pub open spec fn spec_eq_ci(a: Seq<u8>, b: Seq<u8>) -> bool {
    a.len() == b.len() && spec_zip_eq_ci(a, b)
}

/// `needle` occurs in `haystack` as a contiguous run, up to ASCII case.
/// An empty needle occurs in everything.
pub open spec fn spec_contains_ci(haystack: Seq<u8>, needle: Seq<u8>) -> bool {
    ||| needle.len() == 0
    ||| exists|i: int|
        0 <= i <= haystack.len() - needle.len() && spec_eq_ci(
            #[trigger] haystack.subrange(i, i + needle.len() as int),
            needle,
        )
}

/// ASCII lower-casing of one byte.
pub fn lower_byte(b: u8) -> (r: u8)
    ensures
        r == spec_lower(b),
{
    if b >= 65 && b <= 90 {
        b + 32
    } else {
        b
    }
}

/// Pairwise comparison under ASCII case folding over the shorter of the two
/// slices; slices of unequal length are compared only on that prefix.
pub fn iter_eq_ignore_case(a: &[u8], b: &[u8]) -> (r: bool)
    ensures
        r == spec_zip_eq_ci(a@, b@),
{
    let n: usize = if a.len() < b.len() {
        a.len()
    } else {
        b.len()
    };
    let mut k: usize = 0;
    while k < n
        invariant
            n <= a@.len(),
            n <= b@.len(),
            n == if a@.len() < b@.len() {
                a@.len() as int
            } else {
                b@.len() as int
            },
            k <= n,
            forall|i: int| 0 <= i < k ==> spec_lower(a@[i]) == spec_lower(b@[i]),
        decreases n - k,
    {
        if lower_byte(a[k]) != lower_byte(b[k]) {
            return false;
        }
        k += 1;
    }
    true
}

/// Exact key comparison, case-insensitive: equal length and pairwise equal
/// under ASCII case folding.
pub fn key_matches(key: &[u8], target: &[u8]) -> (r: bool)
    ensures
        r == spec_eq_ci(key@, target@),
{
    if key.len() != target.len() {
        return false;
    }
    iter_eq_ignore_case(key, target)
}

/// Case-insensitive substring search: does `needle` occur anywhere in
/// `haystack`, comparing byte-wise under ASCII case folding?
pub fn contains_ignore_case(haystack: &[u8], needle: &[u8]) -> (r: bool)
    ensures
        r == spec_contains_ci(haystack@, needle@),
{
    if needle.len() == 0 {
        return true;
    }
    if haystack.len() < needle.len() {
        return false;
    }
    let last: usize = haystack.len() - needle.len();
    let mut i: usize = 0;
    while i <= last
        invariant
            needle@.len() >= 1,
            haystack@.len() <= usize::MAX,
            last == haystack@.len() - needle@.len(),
            i <= last + 1,
            forall|j: int|
                0 <= j < i ==> !spec_eq_ci(
                    #[trigger] haystack@.subrange(j, j + needle@.len() as int),
                    needle@,
                ),
        decreases last - i + 1,
    {
        if window_eq_ci(haystack, i, needle) {
            return true;
        }
        i += 1;
    }
    false
}

/// Compares the window of `haystack` starting at `at` against `needle`,
/// byte-wise under ASCII case folding.
fn window_eq_ci(haystack: &[u8], at: usize, needle: &[u8]) -> (r: bool)
    requires
        at + needle@.len() <= haystack@.len(),
    ensures
        r == spec_eq_ci(haystack@.subrange(at as int, at + needle@.len() as int), needle@),
{
    let ghost win = haystack@.subrange(at as int, at + needle@.len() as int);
    let hn: usize = haystack.len();
    let mut k: usize = 0;
    while k < needle.len()
        invariant
            hn == haystack@.len(),
            at + needle@.len() <= haystack@.len(),
            win == haystack@.subrange(at as int, at + needle@.len() as int),
            k <= needle@.len(),
            forall|i: int| 0 <= i < k ==> spec_lower(win[i]) == spec_lower(needle@[i]),
        decreases needle@.len() - k,
    {
        if lower_byte(haystack[at + k]) != lower_byte(needle[k]) {
            proof {
                assert(win[k as int] == haystack@[at + k]);
            }
            return false;
        }
        proof {
            assert(win[k as int] == haystack@[at + k]);
        }
        k += 1;
    }
    true
}

} // verus!
