//! The order of index entries: by normalised key, then by priority.

use std::cmp::Ordering;
use vstd::prelude::*;

use crate::search::lexicographic::{chars_lt, lemma_seq_lt_total, seq_lt};

verus! {

/// Entry `(ka, pa)` sorts strictly before entry `(kb, pb)`: its key comes
/// first, or the keys are equal and its priority is smaller.
pub open spec fn entry_before(ka: Seq<char>, pa: u8, kb: Seq<char>, pb: u8) -> bool {
    seq_lt(ka, kb) || (ka == kb && pa < pb)
}

/// Entry number `a` of the parallel lists `keys` and `prios` sorts
/// strictly before entry number `b`.
pub open spec fn entry_before_at(keys: Seq<Vec<char>>, prios: Seq<u8>, a: usize, b: usize) -> bool {
    entry_before(keys[a as int]@, prios[a as int], keys[b as int]@, prios[b as int])
}

/// Compares entries `a` and `b` of the parallel lists `keys` and `prios`
/// by key, then by priority.
fn compare_entries(keys: &Vec<Vec<char>>, prios: &Vec<u8>, a: usize, b: usize) -> (o: Ordering)
    ensures
        a < keys@.len() && b < keys@.len() && keys@.len() == prios@.len() ==> {
            &&& (o matches Ordering::Less) == entry_before_at(keys@, prios@, a, b)
            &&& (o matches Ordering::Greater) == entry_before_at(keys@, prios@, b, a)
        },
{
    if a >= keys.len() || b >= keys.len() || keys.len() != prios.len() {
        return Ordering::Equal;
    }
    let ka = keys[a].as_slice();
    let kb = keys[b].as_slice();
    proof {
        lemma_seq_lt_total(ka@, kb@);
    }
    if chars_lt(ka, kb) {
        Ordering::Less
    } else if chars_lt(kb, ka) {
        Ordering::Greater
    } else if prios[a] < prios[b] {
        Ordering::Less
    } else if prios[b] < prios[a] {
        Ordering::Greater
    } else {
        Ordering::Equal
    }
}

/// Sorts the entry numbers in `order`, which start out as `0, 1, 2, ...`,
/// by key, then priority, with `slice::sort_by` and [`compare_entries`].
/// Its documentation promises a permutation of the input in which no
/// element is preceded by one that compares greater, and a stable sort:
/// elements that compare equal keep their order, here that of their
/// numbers. The comparator is a total order, so the sort does not panic.
#[verifier::external_body]
pub(crate) fn sort_entry_order(order: &mut Vec<usize>, keys: &Vec<Vec<char>>, prios: &Vec<u8>)
    requires
        keys@.len() == prios@.len(),
        old(order)@.len() <= keys@.len(),
        forall|i: int| 0 <= i < old(order)@.len() ==> #[trigger] old(order)@[i] == i,
    ensures
        final(order)@.to_multiset() == old(order)@.to_multiset(),
        forall|i: int, j: int|
            0 <= i < j < final(order)@.len() ==> !entry_before_at(
                keys@,
                prios@,
                final(order)@[j],
                final(order)@[i],
            ),
        forall|i: int, j: int|
            0 <= i < j < final(order)@.len() && !entry_before_at(keys@, prios@, final(order)@[i], final(order)@[j])
                ==> final(order)@[i] < final(order)@[j],
{
    order.sort_by(|a, b| compare_entries(keys, prios, *a, *b));
}

} // verus!
