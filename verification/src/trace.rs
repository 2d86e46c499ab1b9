//! Downsampling of a trace for display: at most two points per bucket, the
//! lowest and the highest, so that narrow spikes survive.
//!
//! Levels are given by keys that order exactly as the levels do under `<`:
//! `None` stands for a level that compares with nothing (NaN).

use vstd::prelude::*;

verus! {

/// The number of display buckets used for traces.
pub const TRACE_BUCKETS: usize = 2048;

/// `a < b` for level keys; a missing key is never less nor greater.
pub open spec fn level_less(a: Option<i64>, b: Option<i64>) -> bool {
    match (a, b) {
        (Some(x), Some(y)) => x < y,
        _ => false,
    }
}

/// The index that a left-to-right scan over `start..end` keeps as the minimum:
/// it moves to a later index only when that level is strictly less.
pub open spec fn scan_min(levels: Seq<Option<i64>>, start: int, end: int) -> int
    decreases end - start,
{
    if end <= start + 1 {
        start
    } else {
        let m = scan_min(levels, start, end - 1);
        if level_less(levels[end - 1], levels[m]) { end - 1 } else { m }
    }
}

/// The index that a left-to-right scan over `start..end` keeps as the maximum.
pub open spec fn scan_max(levels: Seq<Option<i64>>, start: int, end: int) -> int
    decreases end - start,
{
    if end <= start + 1 {
        start
    } else {
        let m = scan_max(levels, start, end - 1);
        if level_less(levels[m], levels[end - 1]) { end - 1 } else { m }
    }
}

/// First index of bucket `b` when `num` points are split into `buckets` buckets.
pub open spec fn bucket_start(b: int, num: int, buckets: int) -> int {
    b * num / buckets
}

/// End (exclusive) of bucket `b`; every bucket holds at least one point.
pub open spec fn bucket_end(b: int, num: int, buckets: int) -> int {
    let e = (b + 1) * num / buckets;
    let s = bucket_start(b, num, buckets);
    if e > s + 1 { e } else { s + 1 }
}

/// The indices kept from bucket `b`: its minimum and its maximum, in index order,
/// once when they coincide.
pub open spec fn bucket_picks(levels: Seq<Option<i64>>, num: int, buckets: int, b: int) -> Seq<int> {
    let s = bucket_start(b, num, buckets);
    let e = bucket_end(b, num, buckets);
    let lo = scan_min(levels, s, e);
    let hi = scan_max(levels, s, e);
    let first = if lo <= hi { lo } else { hi };
    let second = if lo <= hi { hi } else { lo };
    if second != first { seq![first, second] } else { seq![first] }
}

/// The indices kept from buckets `0..k`, bucket after bucket.
pub open spec fn picks_upto(levels: Seq<Option<i64>>, num: int, buckets: int, k: int) -> Seq<int>
    decreases k,
{
    if k <= 0 {
        Seq::empty()
    } else {
        picks_upto(levels, num, buckets, k - 1) + bucket_picks(levels, num, buckets, k - 1)
    }
}

/// The indices of the points kept from a trace of `num` points: none for an
/// empty trace, all of them when there are at most two per bucket, otherwise
/// the minimum and maximum of each bucket.
pub open spec fn downsampled(levels: Seq<Option<i64>>, num: int, buckets: int) -> Seq<int> {
    if num == 0 {
        Seq::empty()
    } else if num <= 2 * buckets {
        Seq::new(num as nat, |i: int| i)
    } else {
        picks_upto(levels, num, buckets, buckets)
    }
}

proof fn lemma_scan_bounds(levels: Seq<Option<i64>>, start: int, end: int)
    requires
        start < end,
    ensures
        start <= scan_min(levels, start, end) < end,
        start <= scan_max(levels, start, end) < end,
    decreases end - start,
{
    if end > start + 1 {
        lemma_scan_bounds(levels, start, end - 1);
    }
}

fn level_less_exec(a: Option<i64>, b: Option<i64>) -> (r: bool)
    ensures
        r == level_less(a, b),
{
    match (a, b) {
        (Some(x), Some(y)) => x < y,
        _ => false,
    }
}

fn scan_bucket(levels: &Vec<Option<i64>>, start: usize, end: usize) -> (r: (usize, usize))
    requires
        start < end <= levels@.len(),
    ensures
        r.0 == scan_min(levels@, start as int, end as int),
        r.1 == scan_max(levels@, start as int, end as int),
{
    let mut i_min = start;
    let mut i_max = start;
    let mut i = start + 1;
    while i < end
        invariant
            start < i <= end <= levels@.len(),
            i_min == scan_min(levels@, start as int, i as int),
            i_max == scan_max(levels@, start as int, i as int),
        decreases end - i,
    {
        proof {
            lemma_scan_bounds(levels@, start as int, i as int);
        }
        if level_less_exec(levels[i], levels[i_min]) {
            i_min = i;
        }
        if level_less_exec(levels[i_max], levels[i]) {
            i_max = i;
        }
        i = i + 1;
    }
    (i_min, i_max)
}

proof fn lemma_bucket_bounds(b: int, num: int, buckets: int)
    requires
        0 <= b < buckets,
        2 * buckets < num,
    ensures
        0 <= bucket_start(b, num, buckets),
        bucket_start(b, num, buckets) + 2 <= bucket_end(b, num, buckets),
        bucket_end(b, num, buckets) == bucket_start(b + 1, num, buckets),
        bucket_end(b, num, buckets) <= num,
        bucket_start(b, num, buckets) <= b * num,
{
    let x = b * num;
    assert(0 <= x) by (nonlinear_arith) requires 0 <= b, 0 < num, x == b * num;
    let q = x / buckets;
    let r = x % buckets;
    vstd::arithmetic::div_mod::lemma_fundamental_div_mod(x, buckets);
    assert((b + 1) * num == x + num) by (nonlinear_arith) requires x == b * num;
    let q2 = (x + num) / buckets;
    vstd::arithmetic::div_mod::lemma_fundamental_div_mod(x + num, buckets);
    assert(q2 >= q + 2) by (nonlinear_arith)
        requires
            x == buckets * q + r,
            0 <= r < buckets,
            x + num == buckets * q2 + (x + num) % buckets,
            0 <= (x + num) % buckets < buckets,
            num > 2 * buckets,
            buckets > 0,
    ;
    assert(x + num <= buckets * num) by (nonlinear_arith)
        requires x == b * num, b + 1 <= buckets, num > 0;
    assert(q2 <= num) by (nonlinear_arith)
        requires
            x + num == buckets * q2 + (x + num) % buckets,
            0 <= (x + num) % buckets,
            x + num <= buckets * num,
            buckets > 0,
            b + 1 <= buckets,
            x == b * num,
            num > 0,
    {
    }
    assert(q >= 0) by (nonlinear_arith) requires x >= 0, buckets > 0, q == x / buckets;
    assert(q <= x) by (nonlinear_arith) requires x >= 0, buckets > 0, q == x / buckets;
}

/// The number of points of a trace given `distance_count` distances and
/// `level_count` levels: the smaller of the two.
pub open spec fn sample_count(distance_count: int, level_count: int) -> int {
    if distance_count <= level_count { distance_count } else { level_count }
}

/// Keeps, of `levels`' first `num` points where `num` is the smaller of
/// `distance_count` and the number of levels, the indices that the display
/// shows (see `downsampled`).
pub fn downsample_min_max(distance_count: usize, levels: &Vec<Option<i64>>, buckets: usize) -> (r: Vec<usize>)
    requires
        sample_count(distance_count as int, levels@.len() as int) > 0 ==> 2 * buckets <= usize::MAX,
        sample_count(distance_count as int, levels@.len() as int) > 2 * buckets
            ==> sample_count(distance_count as int, levels@.len() as int) * buckets <= usize::MAX,
    ensures
        r@.len() == downsampled(levels@, sample_count(distance_count as int, levels@.len() as int), buckets as int).len(),
        forall|i: int| 0 <= i < r@.len() ==> (#[trigger] r@[i]) as int
            == downsampled(levels@, sample_count(distance_count as int, levels@.len() as int), buckets as int)[i],
{
    let num = if distance_count <= levels.len() { distance_count } else { levels.len() };
    let ghost want = downsampled(levels@, num as int, buckets as int);
    let mut out: Vec<usize> = Vec::new();
    if num == 0 {
        return out;
    }
    if num <= buckets * 2 {
        let mut i: usize = 0;
        while i < num
            invariant
                i <= num,
                num <= 2 * buckets,
                num > 0,
                want == Seq::new(num as nat, |k: int| k),
                out@.len() == i,
                forall|k: int| 0 <= k < i ==> out@[k] as int == k,
            decreases num - i,
        {
            out.push(i);
            i = i + 1;
        }
        return out;
    }
    let mut bucket: usize = 0;
    while bucket < buckets
        invariant
            0 < num <= levels@.len(),
            2 * buckets < num,
            num * buckets <= usize::MAX,
            bucket <= buckets,
            want == picks_upto(levels@, num as int, buckets as int, buckets as int),
            out@.len() == picks_upto(levels@, num as int, buckets as int, bucket as int).len(),
            forall|k: int| 0 <= k < out@.len() ==> out@[k] as int == #[trigger] picks_upto(levels@, num as int, buckets as int, bucket as int)[k],
        decreases buckets - bucket,
    {
        proof {
            lemma_bucket_bounds(bucket as int, num as int, buckets as int);
            assert((bucket as int + 1) * (num as int) <= (buckets as int) * (num as int)) by (nonlinear_arith)
                requires bucket < buckets, num > 0;
            assert((buckets as int) * (num as int) == (num as int) * (buckets as int)) by (nonlinear_arith);
            assert((bucket as int) * (num as int) <= (bucket as int + 1) * (num as int)) by (nonlinear_arith)
                requires num > 0;
        }
        let start = bucket * num / buckets;
        let e = (bucket + 1) * num / buckets;
        let end = if e > start + 1 { e } else { start + 1 };
        let (lo, hi) = scan_bucket(levels, start, end);
        let (first, second) = if lo <= hi { (lo, hi) } else { (hi, lo) };
        let ghost before = out@;
        let ghost prev = picks_upto(levels@, num as int, buckets as int, bucket as int);
        out.push(first);
        if second != first {
            out.push(second);
        }
        proof {
            let next = picks_upto(levels@, num as int, buckets as int, bucket as int + 1);
            let bp = bucket_picks(levels@, num as int, buckets as int, bucket as int);
            assert(next == prev + bp);
            assert forall|k: int| 0 <= k < out@.len() implies out@[k] as int == #[trigger] next[k] by {
                if k < before.len() {
                    assert(out@[k] == before[k]);
                }
            }
        }
        bucket = bucket + 1;
    }
    out
}


proof fn lemma_picks_shape(levels: Seq<Option<i64>>, num: int, buckets: int, k: int)
    requires
        0 <= k <= buckets,
        2 * buckets < num,
    ensures
        picks_upto(levels, num, buckets, k).len() <= 2 * k,
        forall|i: int| 0 <= i < picks_upto(levels, num, buckets, k).len()
            ==> 0 <= #[trigger] picks_upto(levels, num, buckets, k)[i] < bucket_start(k, num, buckets),
        forall|i: int, j: int| 0 <= i < j < picks_upto(levels, num, buckets, k).len()
            ==> #[trigger] picks_upto(levels, num, buckets, k)[i] < #[trigger] picks_upto(levels, num, buckets, k)[j],
    decreases k,
{
    if k == 0 {
        assert(picks_upto(levels, num, buckets, 0) =~= Seq::<int>::empty());
    } else {
        lemma_picks_shape(levels, num, buckets, k - 1);
        lemma_bucket_bounds(k - 1, num, buckets);
        let s = bucket_start(k - 1, num, buckets);
        let e = bucket_end(k - 1, num, buckets);
        lemma_scan_bounds(levels, s, e);
        let prev = picks_upto(levels, num, buckets, k - 1);
        let bp = bucket_picks(levels, num, buckets, k - 1);
        let all = picks_upto(levels, num, buckets, k);
        assert(all == prev + bp);
        assert forall|i: int| 0 <= i < all.len() implies 0 <= #[trigger] all[i] < bucket_start(k, num, buckets) by {
            if i >= prev.len() {
                assert(all[i] == bp[i - prev.len()]);
            }
        }
        assert forall|i: int, j: int| 0 <= i < j < all.len() implies #[trigger] all[i] < #[trigger] all[j] by {
            if j >= prev.len() {
                assert(all[j] == bp[j - prev.len()]);
                if i >= prev.len() {
                    assert(all[i] == bp[i - prev.len()]);
                }
            }
        }
    }
}

/// The kept indices are strictly increasing, all below `num`, and there are at
/// most `num` of them and at most two per bucket.
pub proof fn lemma_downsampled_shape(levels: Seq<Option<i64>>, num: int, buckets: int)
    requires
        0 <= num,
        0 <= buckets,
    ensures
        downsampled(levels, num, buckets).len() <= num,
        num > 0 ==> downsampled(levels, num, buckets).len() <= 2 * buckets,
        forall|i: int| 0 <= i < downsampled(levels, num, buckets).len()
            ==> 0 <= #[trigger] downsampled(levels, num, buckets)[i] < num,
        forall|i: int, j: int| 0 <= i < j < downsampled(levels, num, buckets).len()
            ==> #[trigger] downsampled(levels, num, buckets)[i] < #[trigger] downsampled(levels, num, buckets)[j],
{
    if num > 2 * buckets && buckets > 0 {
        lemma_picks_shape(levels, num, buckets, buckets);
        assert(bucket_start(buckets, num, buckets) == num) by {
            assert(buckets * num == num * buckets) by (nonlinear_arith);
            vstd::arithmetic::div_mod::lemma_div_multiples_vanish(num, buckets);
        }
    }
}

/// A trace of at most two points per bucket is kept whole.
pub proof fn lemma_short_trace_kept(levels: Seq<Option<i64>>, num: int, buckets: int)
    requires
        0 < num <= 2 * buckets,
    ensures
        downsampled(levels, num, buckets) == Seq::new(num as nat, |i: int| i),
{
}

proof fn lemma_scan_max_strict(levels: Seq<Option<i64>>, start: int, end: int, top: int)
    requires
        start <= top < end <= levels.len(),
        0 <= start,
        levels[top] is Some,
        forall|k: int| start <= k < end && k != top ==> level_less(levels[k], levels[top]),
    ensures
        scan_max(levels, start, end) == top,
    decreases end - start,
{
    if end > start + 1 {
        if top < end - 1 {
            lemma_scan_max_strict(levels, start, end - 1, top);
        } else {
            lemma_scan_bounds(levels, start, end - 1);
            let m = scan_max(levels, start, end - 1);
            assert(level_less(levels[m], levels[top]));
        }
    }
}

proof fn lemma_scan_min_strict(levels: Seq<Option<i64>>, start: int, end: int, low: int)
    requires
        start <= low < end <= levels.len(),
        0 <= start,
        levels[low] is Some,
        forall|k: int| start <= k < end && k != low ==> level_less(levels[low], levels[k]),
    ensures
        scan_min(levels, start, end) == low,
    decreases end - start,
{
    if end > start + 1 {
        if low < end - 1 {
            lemma_scan_min_strict(levels, start, end - 1, low);
        } else {
            lemma_scan_bounds(levels, start, end - 1);
            let m = scan_min(levels, start, end - 1);
            assert(level_less(levels[low], levels[m]));
        }
    }
}

proof fn lemma_bucket_of(num: int, buckets: int, i: int, k: int)
    requires
        0 < buckets,
        2 * buckets < num,
        0 <= k <= buckets,
        0 <= i < bucket_start(k, num, buckets),
    ensures
        exists|b: int| 0 <= b < k && bucket_start(b, num, buckets) <= i < #[trigger] bucket_end(b, num, buckets),
    decreases k,
{
    if k == 0 {
        assert(0 * num == 0) by (nonlinear_arith);
        vstd::arithmetic::div_mod::lemma_div_of0(buckets);
        assert(bucket_start(0, num, buckets) == 0);
    } else {
        lemma_bucket_bounds(k - 1, num, buckets);
        if i < bucket_start(k - 1, num, buckets) {
            lemma_bucket_of(num, buckets, i, k - 1);
            let b = choose|b: int| 0 <= b < k - 1 && bucket_start(b, num, buckets) <= i < #[trigger] bucket_end(b, num, buckets);
            assert(bucket_start(b, num, buckets) <= i < bucket_end(b, num, buckets));
        } else {
            assert(bucket_start(k - 1, num, buckets) <= i < bucket_end(k - 1, num, buckets));
        }
    }
}

proof fn lemma_picks_contain(levels: Seq<Option<i64>>, num: int, buckets: int, k: int, b: int)
    requires
        0 <= b < k,
    ensures
        forall|x: int| bucket_picks(levels, num, buckets, b).contains(x) ==> #[trigger] picks_upto(levels, num, buckets, k).contains(x),
    decreases k,
{
    let prev = picks_upto(levels, num, buckets, k - 1);
    let bp = bucket_picks(levels, num, buckets, k - 1);
    assert(picks_upto(levels, num, buckets, k) == prev + bp);
    if b < k - 1 {
        lemma_picks_contain(levels, num, buckets, k - 1, b);
        assert forall|x: int| bucket_picks(levels, num, buckets, b).contains(x) implies #[trigger] picks_upto(levels, num, buckets, k).contains(x) by {
            assert(prev.contains(x));
            let i = choose|i: int| 0 <= i < prev.len() && prev[i] == x;
            assert((prev + bp)[i] == x);
        }
    } else {
        assert forall|x: int| bp.contains(x) implies #[trigger] picks_upto(levels, num, buckets, k).contains(x) by {
            let i = choose|i: int| 0 <= i < bp.len() && bp[i] == x;
            assert((prev + bp)[prev.len() + i] == x);
        }
    }
}

/// Every bucket's minimum and maximum, as the scan finds them, are kept.
pub proof fn lemma_bucket_extremes_kept(levels: Seq<Option<i64>>, num: int, buckets: int, b: int)
    requires
        2 * buckets < num,
        0 <= b < buckets,
    ensures
        downsampled(levels, num, buckets).contains(
            scan_min(levels, bucket_start(b, num, buckets), bucket_end(b, num, buckets)),
        ),
        downsampled(levels, num, buckets).contains(
            scan_max(levels, bucket_start(b, num, buckets), bucket_end(b, num, buckets)),
        ),
{
    lemma_picks_contain(levels, num, buckets, buckets, b);
    let bp = bucket_picks(levels, num, buckets, b);
    let s = bucket_start(b, num, buckets);
    let e = bucket_end(b, num, buckets);
    let lo = scan_min(levels, s, e);
    let hi = scan_max(levels, s, e);
    if lo <= hi {
        assert(bp[0] == lo);
        assert(bp.contains(lo));
        assert(bp[bp.len() - 1] == hi);
        assert(bp.contains(hi));
    } else {
        assert(bp[0] == hi);
        assert(bp.contains(hi));
        assert(bp[bp.len() - 1] == lo);
        assert(bp.contains(lo));
    }
}

/// A point whose level is strictly above (or strictly below) every other
/// level of the trace is always kept.
pub proof fn lemma_spike_kept(levels: Seq<Option<i64>>, num: int, buckets: int, top: int)
    requires
        0 <= top < num <= levels.len(),
        0 < buckets,
        levels[top] is Some,
        (forall|k: int| 0 <= k < num && k != top ==> level_less(levels[k], levels[top]))
            || (forall|k: int| 0 <= k < num && k != top ==> level_less(levels[top], levels[k])),
    ensures
        downsampled(levels, num, buckets).contains(top),
{
    if num <= 2 * buckets {
        assert(downsampled(levels, num, buckets)[top] == top);
    } else {
        assert(bucket_start(buckets, num, buckets) == num) by {
            assert(buckets * num == num * buckets) by (nonlinear_arith);
            vstd::arithmetic::div_mod::lemma_div_multiples_vanish(num, buckets);
        }
        lemma_bucket_of(num, buckets, top, buckets);
        let b = choose|b: int| 0 <= b < buckets && bucket_start(b, num, buckets) <= top < #[trigger] bucket_end(b, num, buckets);
        lemma_bucket_bounds(b, num, buckets);
        lemma_bucket_extremes_kept(levels, num, buckets, b);
        let s = bucket_start(b, num, buckets);
        let e = bucket_end(b, num, buckets);
        if forall|k: int| 0 <= k < num && k != top ==> level_less(levels[k], levels[top]) {
            lemma_scan_max_strict(levels, s, e, top);
        } else {
            lemma_scan_min_strict(levels, s, e, top);
        }
    }
}

} // verus!

verus! {

/// Every level of `levels[start..end)` is known (no NaN).
pub open spec fn all_levels_known(levels: Seq<Option<i64>>, start: int, end: int) -> bool {
    forall|k: int| start <= k < end ==> (#[trigger] levels[k]) is Some
}

/// Index `k` holds a lowest level of `levels[start..end)`.
pub open spec fn is_lowest(levels: Seq<Option<i64>>, start: int, end: int, k: int) -> bool {
    start <= k < end && forall|j: int| start <= j < end ==> !level_less(#[trigger] levels[j], levels[k])
}

/// Index `k` holds a highest level of `levels[start..end)`.
pub open spec fn is_highest(levels: Seq<Option<i64>>, start: int, end: int, k: int) -> bool {
    start <= k < end && forall|j: int| start <= j < end ==> !level_less(levels[k], #[trigger] levels[j])
}

proof fn lemma_scan_extremes(levels: Seq<Option<i64>>, start: int, end: int)
    requires
        0 <= start < end <= levels.len(),
        all_levels_known(levels, start, end),
    ensures
        is_lowest(levels, start, end, scan_min(levels, start, end)),
        is_highest(levels, start, end, scan_max(levels, start, end)),
    decreases end - start,
{
    if end > start + 1 {
        lemma_scan_extremes(levels, start, end - 1);
        lemma_scan_bounds(levels, start, end - 1);
        let lo = scan_min(levels, start, end - 1);
        let hi = scan_max(levels, start, end - 1);
        assert(levels[end - 1] is Some);
        assert(levels[lo] is Some);
        assert(levels[hi] is Some);
    } else {
        assert(levels[start] is Some);
    }
}

/// With every level known, a lowest and a highest level of the whole trace
/// are kept, ties included.
pub proof fn lemma_global_extremes_kept(levels: Seq<Option<i64>>, num: int, buckets: int)
    requires
        0 < num <= levels.len(),
        0 < buckets,
        all_levels_known(levels, 0, num),
    ensures
        exists|k: int| #[trigger] downsampled(levels, num, buckets).contains(k) && is_lowest(levels, 0, num, k),
        exists|k: int| #[trigger] downsampled(levels, num, buckets).contains(k) && is_highest(levels, 0, num, k),
{
    let kept = downsampled(levels, num, buckets);
    lemma_scan_extremes(levels, 0, num);
    let g_lo = scan_min(levels, 0, num);
    let g_hi = scan_max(levels, 0, num);
    if num <= 2 * buckets {
        assert(kept[g_lo] == g_lo);
        assert(kept.contains(g_lo));
        assert(kept[g_hi] == g_hi);
        assert(kept.contains(g_hi));
    } else {
        assert(bucket_start(buckets, num, buckets) == num) by {
            assert(buckets * num == num * buckets) by (nonlinear_arith);
            vstd::arithmetic::div_mod::lemma_div_multiples_vanish(num, buckets);
        }
        // The lowest level.
        lemma_scan_bounds(levels, 0, num);
        lemma_bucket_of(num, buckets, g_lo, buckets);
        let b = choose|b: int| 0 <= b < buckets && bucket_start(b, num, buckets) <= g_lo < #[trigger] bucket_end(b, num, buckets);
        lemma_bucket_bounds(b, num, buckets);
        lemma_bucket_extremes_kept(levels, num, buckets, b);
        let s = bucket_start(b, num, buckets);
        let e = bucket_end(b, num, buckets);
        lemma_scan_extremes(levels, s, e);
        let m = scan_min(levels, s, e);
        assert(is_lowest(levels, 0, num, m)) by {
            assert forall|j: int| 0 <= j < num implies !level_less(#[trigger] levels[j], levels[m]) by {
                assert(!level_less(levels[g_lo], levels[m]));
                assert(!level_less(levels[j], levels[g_lo]));
                assert(levels[j] is Some && levels[m] is Some && levels[g_lo] is Some);
            }
        }
        assert(kept.contains(m));
        // The highest level.
        lemma_bucket_of(num, buckets, g_hi, buckets);
        let c = choose|c: int| 0 <= c < buckets && bucket_start(c, num, buckets) <= g_hi < #[trigger] bucket_end(c, num, buckets);
        lemma_bucket_bounds(c, num, buckets);
        lemma_bucket_extremes_kept(levels, num, buckets, c);
        let s2 = bucket_start(c, num, buckets);
        let e2 = bucket_end(c, num, buckets);
        lemma_scan_extremes(levels, s2, e2);
        let x = scan_max(levels, s2, e2);
        assert(is_highest(levels, 0, num, x)) by {
            assert forall|j: int| 0 <= j < num implies !level_less(levels[x], #[trigger] levels[j]) by {
                assert(!level_less(levels[x], levels[g_hi]));
                assert(!level_less(levels[g_hi], levels[j]));
                assert(levels[j] is Some && levels[x] is Some && levels[g_hi] is Some);
            }
        }
        assert(kept.contains(x));
    }
}

} // verus!
