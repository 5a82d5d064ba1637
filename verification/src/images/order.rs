//! The order of use.
use crate::images::entries::ImageKey;
use vstd::prelude::*;

verus! {

/// Sorts entries by when they were last used, the one used longest ago first.
///
/// Calls `slice::sort_unstable_by_key` of the standard library. Taken from
/// its documentation: the slice holds the same items afterwards, and their
/// keys never decrease from one item to a later one.
#[verifier::external_body]
pub(crate) fn sort_by_last_used(uses: &mut Vec<(u64, ImageKey)>)
    ensures
        final(uses)@.to_multiset() == old(uses)@.to_multiset(),
        forall|i: int, j: int|
            0 <= i <= j < final(uses)@.len() ==> final(uses)@[i].0 <= final(uses)@[j].0,
{
    uses.sort_unstable_by_key(|(last_used, _)| *last_used);
}

} // verus!
