//! Searching a byte slice for a given byte.

use vstd::prelude::*;

verus! {

/// True when `k` is the index of the first occurrence of `needle` in `s`.
pub open spec fn is_first_index_of(s: Seq<u8>, needle: u8, k: int) -> bool {
    &&& 0 <= k < s.len()
    &&& s[k] == needle
    &&& forall|j: int| 0 <= j < k ==> s[j] != needle
}

/// Calls `memchr::memchr`, whose documentation promises the index of the first
/// occurrence of `needle` in `haystack`, or `None` where `needle` does not occur.
/// The contract states exactly that: `None` iff no byte equals `needle`, and
/// otherwise an in-bounds index holding `needle` with no earlier occurrence.
#[verifier::external_body]
pub(crate) fn memchr(needle: u8, haystack: &[u8]) -> (r: Option<usize>)
    ensures
        r is None <==> (forall|i: int| 0 <= i < haystack@.len() ==> haystack@[i] != needle),
        r matches Some(k) ==> is_first_index_of(haystack@, needle, k as int),
{
    memchr::memchr(needle, haystack)
}

} // verus!
