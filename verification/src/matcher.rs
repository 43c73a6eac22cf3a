//! The attribute/name matcher: decides whether one element matches a query
//! under a search-type selector. Selectors `tag`, `any` and the empty
//! selector match against the tag name; `any` additionally checks a fixed
//! allow-list of attribute keys; any other selector names the one attribute
//! key to check. Matching is substring containment, case-insensitive and
//! byte-wise.

use vstd::prelude::*;
use crate::ascii::{
    spec_eq_ci, spec_contains_ci, key_matches, contains_ignore_case,
};

verus! {

/// The fixed allow-list of attribute keys checked by selector `any`:
/// `guid`, `id`, `name`, `eaid`, `value`, `guidref` (case-insensitive).
pub open spec fn spec_allowed_key(k: Seq<u8>) -> bool {
    ||| spec_eq_ci(k, seq![103u8, 117u8, 105u8, 100u8])  // guid
    ||| spec_eq_ci(k, seq![105u8, 100u8])  // id
    ||| spec_eq_ci(k, seq![110u8, 97u8, 109u8, 101u8])  // name
    ||| spec_eq_ci(k, seq![101u8, 97u8, 105u8, 100u8])  // eaid
    ||| spec_eq_ci(k, seq![118u8, 97u8, 108u8, 117u8, 101u8])  // value
    ||| spec_eq_ci(k, seq![103u8, 117u8, 105u8, 100u8, 114u8, 101u8, 102u8])  // guidref
}

/// Selectors that match against the tag name: `tag`, `any`, or empty.
pub open spec fn spec_selects_name(t: Seq<u8>) -> bool {
    ||| t.len() == 0
    ||| t == seq![116u8, 97u8, 103u8]  // tag
    ||| t == seq![97u8, 110u8, 121u8]  // any
}

/// Whether selector `t` asks for attribute key `k` to be checked.
pub open spec fn spec_key_selected(k: Seq<u8>, t: Seq<u8>) -> bool {
    if t == seq![97u8, 110u8, 121u8] {  // any
        spec_allowed_key(k)
    } else if t.len() == 0 || t == seq![116u8, 97u8, 103u8] {  // tag
        false
    } else {
        spec_eq_ci(k, t)
    }
}

/// The attribute pairs of an element, as plain byte sequences.
pub open spec fn spec_attrs(attrs: Seq<(Vec<u8>, Vec<u8>)>) -> Seq<(Seq<u8>, Seq<u8>)> {
    attrs.map_values(|p: (Vec<u8>, Vec<u8>)| (p.0@, p.1@))
}

/// Whether an element with tag name `name` and attributes `attrs` matches
/// query `q` under selector `t` (both already lower-cased): the name
/// contains `q` when the selector matches names, or a selected attribute's
/// value contains `q`.
pub open spec fn spec_element_matches(
    name: Seq<u8>,
    attrs: Seq<(Seq<u8>, Seq<u8>)>,
    q: Seq<u8>,
    t: Seq<u8>,
) -> bool {
    ||| (spec_selects_name(t) && spec_contains_ci(name, q))
    ||| exists|i: int|
        0 <= i < attrs.len() && spec_key_selected(#[trigger] attrs[i].0, t) && spec_contains_ci(
            attrs[i].1,
            q,
        )
}

/// Exact byte equality of two slices.
pub fn bytes_eq(a: &[u8], b: &[u8]) -> (r: bool)
    ensures
        r == (a@ == b@),
{
    if a.len() != b.len() {
        return false;
    }
    let n: usize = a.len();
    let mut k: usize = 0;
    while k < n
        invariant
            n == a@.len(),
            n == b@.len(),
            k <= n,
            forall|i: int| 0 <= i < k ==> a@[i] == b@[i],
        decreases n - k,
    {
        if a[k] != b[k] {
            return false;
        }
        k += 1;
    }
    proof {
        assert(a@ =~= b@);
    }
    true
}

/// Whether `key` is on the `any` allow-list.
fn is_allowed_key(key: &[u8]) -> (r: bool)
    ensures
        r == spec_allowed_key(key@),
{
    let guid: [u8; 4] = [103, 117, 105, 100];
    let id: [u8; 2] = [105, 100];
    let name: [u8; 4] = [110, 97, 109, 101];
    let eaid: [u8; 4] = [101, 97, 105, 100];
    let value: [u8; 5] = [118, 97, 108, 117, 101];
    let guidref: [u8; 7] = [103, 117, 105, 100, 114, 101, 102];
    proof {
        assert(guid@ =~= seq![103u8, 117u8, 105u8, 100u8]);
        assert(id@ =~= seq![105u8, 100u8]);
        assert(name@ =~= seq![110u8, 97u8, 109u8, 101u8]);
        assert(eaid@ =~= seq![101u8, 97u8, 105u8, 100u8]);
        assert(value@ =~= seq![118u8, 97u8, 108u8, 117u8, 101u8]);
        assert(guidref@ =~= seq![103u8, 117u8, 105u8, 100u8, 114u8, 101u8, 102u8]);
    }
    key_matches(key, guid.as_slice()) || key_matches(key, id.as_slice()) || key_matches(
        key,
        name.as_slice(),
    ) || key_matches(key, eaid.as_slice()) || key_matches(key, value.as_slice()) || key_matches(
        key,
        guidref.as_slice(),
    )
}

/// Decides whether one element matches the query under the selector, both
/// given lower-cased. Checks the tag name for name-matching selectors, then
/// the selected attributes.
pub fn element_matches_bytes(
    name: &[u8],
    attrs: &Vec<(Vec<u8>, Vec<u8>)>,
    query: &[u8],
    search_type: &[u8],
) -> (r: bool)
    ensures
        r == spec_element_matches(name@, spec_attrs(attrs@), query@, search_type@),
{
    let tag_pat: [u8; 3] = [116, 97, 103];
    let any_pat: [u8; 3] = [97, 110, 121];
    proof {
        assert(tag_pat@ =~= seq![116u8, 97u8, 103u8]);
        assert(any_pat@ =~= seq![97u8, 110u8, 121u8]);
    }
    let is_any = bytes_eq(search_type, any_pat.as_slice());
    let is_tag = bytes_eq(search_type, tag_pat.as_slice());
    let selects_name = search_type.len() == 0 || is_tag || is_any;

    if selects_name && contains_ignore_case(name, query) {
        return true;
    }

    let mut i: usize = 0;
    while i < attrs.len()
        invariant
            is_any == (search_type@ == seq![97u8, 110u8, 121u8]),
            is_tag == (search_type@ == seq![116u8, 97u8, 103u8]),
            selects_name == spec_selects_name(search_type@),
            !(selects_name && spec_contains_ci(name@, query@)),
            i <= attrs@.len(),
            forall|j: int|
                0 <= j < i ==> !(spec_key_selected(
                    #[trigger] spec_attrs(attrs@)[j].0,
                    search_type@,
                ) && spec_contains_ci(spec_attrs(attrs@)[j].1, query@)),
        decreases attrs@.len() - i,
    {
        let key: &Vec<u8> = &attrs[i].0;
        let val: &Vec<u8> = &attrs[i].1;
        let selected: bool = if is_any {
            is_allowed_key(key.as_slice())
        } else if selects_name {
            false
        } else {
            key_matches(key.as_slice(), search_type)
        };
        if selected && contains_ignore_case(val.as_slice(), query) {
            proof {
                assert(spec_attrs(attrs@)[i as int].0 == attrs@[i as int].0@);
                assert(spec_attrs(attrs@)[i as int].1 == attrs@[i as int].1@);
            }
            return true;
        }
        proof {
            assert(spec_attrs(attrs@)[i as int].0 == attrs@[i as int].0@);
            assert(spec_attrs(attrs@)[i as int].1 == attrs@[i as int].1@);
        }
        i += 1;
    }
    false
}

} // verus!
