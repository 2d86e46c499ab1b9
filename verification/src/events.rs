//! The rows of the events table: events ordered by distance, the first row
//! labelled as the launch connector.
//!
//! Distances are given by keys that order exactly as the distances do.

use vstd::prelude::*;
use crate::labels::{event_kind_label, event_kind_text};

verus! {

/// Event `a` comes before event `b`: it is nearer, or as near and listed earlier.
pub open spec fn event_before(keys: Seq<i64>, a: int, b: int) -> bool {
    keys[a] < keys[b] || (keys[a] == keys[b] && a < b)
}

/// `order` lists every event index below `n` once, nearest first, events at
/// the same distance in their original order (a stable sort by distance).
pub open spec fn is_event_order(keys: Seq<i64>, n: int, order: Seq<usize>) -> bool {
    &&& order.len() == n
    &&& forall|p: int| 0 <= p < n ==> (#[trigger] order[p]) < n
    &&& forall|k: int| 0 <= k < n ==> #[trigger] order.contains(k as usize)
    &&& forall|p: int, q: int| 0 <= p < q < n ==> event_before(keys, #[trigger] order[p] as int, #[trigger] order[q] as int)
}

/// The order of the events table's rows: the event indices sorted by
/// distance, stably.
pub fn event_order(distance_keys: &Vec<i64>) -> (order: Vec<usize>)
    ensures
        is_event_order(distance_keys@, distance_keys@.len() as int, order@),
{
    let keys = distance_keys;
    let n = keys.len();
    let mut out: Vec<usize> = Vec::new();
    let mut i: usize = 0;
    while i < n
        invariant
            n == keys@.len(),
            i <= n,
            out@.len() == i,
            forall|p: int| 0 <= p < i ==> (#[trigger] out@[p]) < i,
            forall|k: int| 0 <= k < i ==> #[trigger] out@.contains(k as usize),
            forall|p: int, q: int| 0 <= p < q < i ==> event_before(keys@, #[trigger] out@[p] as int, #[trigger] out@[q] as int),
        decreases n - i,
    {
        let mut j: usize = 0;
        while j < out.len() && keys[out[j]] <= keys[i]
            invariant
                n == keys@.len(),
                i < n,
                out@.len() == i,
                j <= out@.len(),
                forall|p: int| 0 <= p < i ==> (#[trigger] out@[p]) < i,
                forall|p: int| 0 <= p < j ==> keys@[#[trigger] out@[p] as int] <= keys@[i as int],
            decreases out@.len() - j,
        {
            j = j + 1;
        }
        let ghost old_out = out@;
        proof {
            assert forall|q: int| j <= q < i implies keys@[i as int] < keys@[#[trigger] old_out[q] as int] by {
                if q > j {
                    assert(event_before(keys@, old_out[j as int] as int, old_out[q] as int));
                }
            }
        }
        out.insert(j, i);
        proof {
            let new_out = out@;
            assert(new_out =~= old_out.take(j as int) + seq![i] + old_out.skip(j as int));
            assert forall|p: int| 0 <= p < i + 1 implies (#[trigger] new_out[p]) < i + 1 by {
                if p > j {
                    assert(new_out[p] == old_out[p - 1]);
                }
            }
            assert forall|k: int| 0 <= k < i + 1 implies #[trigger] new_out.contains(k as usize) by {
                if k == i {
                    assert(new_out[j as int] == i);
                } else {
                    assert(old_out.contains(k as usize));
                    let p = choose|p: int| 0 <= p < old_out.len() && old_out[p] == k as usize;
                    if p < j {
                        assert(new_out[p] == k as usize);
                    } else {
                        assert(new_out[p + 1] == k as usize);
                    }
                }
            }
            assert forall|p: int, q: int| 0 <= p < q < i + 1 implies event_before(keys@, #[trigger] new_out[p] as int, #[trigger] new_out[q] as int) by {
                if p < j && q == j {
                    assert(new_out[p] == old_out[p]);
                } else if p == j && q > j {
                    assert(new_out[q] == old_out[q - 1]);
                } else if p < j && q > j {
                    assert(new_out[p] == old_out[p]);
                    assert(new_out[q] == old_out[q - 1]);
                } else if p > j {
                    assert(new_out[p] == old_out[p - 1]);
                    assert(new_out[q] == old_out[q - 1]);
                } else {
                    assert(new_out[p] == old_out[p]);
                    assert(new_out[q] == old_out[q]);
                }
            }
        }
        i = i + 1;
    }
    out
}

/// The kind labels of the table's rows, in table order: the row of `order[r]`
/// is labelled from its kind, the first row as the launch connector when it
/// is a reflection.
pub fn event_row_labels(kinds: &Vec<String>, order: &Vec<usize>) -> (labels: Vec<&'static str>)
    requires
        forall|p: int| 0 <= p < order@.len() ==> (#[trigger] order@[p]) < kinds@.len(),
    ensures
        labels@.len() == order@.len(),
        forall|p: int| 0 <= p < order@.len() ==> (#[trigger] labels@[p])@ == event_kind_text(kinds@[order@[p] as int]@, p == 0),
{
    let mut labels: Vec<&'static str> = Vec::new();
    let mut p: usize = 0;
    while p < order.len()
        invariant
            p <= order@.len(),
            labels@.len() == p,
            forall|r: int| 0 <= r < order@.len() ==> (#[trigger] order@[r]) < kinds@.len(),
            forall|r: int| 0 <= r < p ==> (#[trigger] labels@[r])@ == event_kind_text(kinds@[order@[r] as int]@, r == 0),
        decreases order@.len() - p,
    {
        let k = order[p];
        labels.push(event_kind_label(kinds[k].as_str(), p == 0));
        p = p + 1;
    }
    labels
}

} // verus!
