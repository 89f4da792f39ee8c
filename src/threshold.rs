//! Score thresholds and temporally spaced frame selection.
use vstd::prelude::*;
use vstd::relations::{sorted_by, total_ordering};
use vstd::seq_lib::lemma_sorted_unique;

verus! {

broadcast use vstd::seq_lib::group_to_multiset_ensures;

/// Descending order on scores.
pub open spec fn score_desc() -> spec_fn(u32, u32) -> bool {
    |a: u32, b: u32| a >= b
}

/// The scores sorted from highest to lowest.
pub open spec fn sorted_desc(s: Seq<u32>) -> Seq<u32> {
    s.sort_by(score_desc())
}

/// Position of the cutoff for a target count `k` among `len` sorted scores.
pub open spec fn rank_position(len: int, k: int) -> int {
    if k < len - 1 {
        k
    } else {
        len - 1
    }
}

pub proof fn lemma_score_desc_total()
    ensures
        total_ordering(score_desc()),
{
}

/// Sorts the scores from highest to lowest, in place.
pub fn sort_scores_desc(v: &mut Vec<u32>)
    ensures
        final(v)@.len() == old(v)@.len(),
        final(v)@.to_multiset() == old(v)@.to_multiset(),
        sorted_by(final(v)@, score_desc()),
{
    let n = v.len();
    let mut i: usize = 0;
    while i < n
        invariant
            v@.len() == n,
            n == old(v)@.len(),
            v@.to_multiset() == old(v)@.to_multiset(),
            0 <= i <= n,
            forall|a: int, b: int| 0 <= a < b < i ==> v@[a] >= v@[b],
            forall|a: int, b: int| 0 <= a < i <= b < n ==> v@[a] >= v@[b],
        decreases n - i,
    {
        let mut best: usize = i;
        let mut j: usize = i + 1;
        while j < n
            invariant
                v@.len() == n,
                i < n,
                i <= best < n,
                i < j <= n,
                forall|b: int| i <= b < j ==> v@[best as int] >= v@[b],
            decreases n - j,
        {
            if v[j] > v[best] {
                best = j;
            }
            j = j + 1;
        }
        let a = v[i];
        let b = v[best];
        let ghost before = v@;
        v.set(i, b);
        v.set(best, a);
        proof {
            assert(v@ == before.update(i as int, b).update(best as int, a));
            assert(v@.to_multiset() =~= before.to_multiset());
        }
        i = i + 1;
    }
    proof {
        assert(sorted_by(v@, score_desc()));
    }
}

/// The score at `rank_position(len, k)` of the scores sorted from highest to
/// lowest.
pub fn kth_highest(scores: &Vec<u32>, k: usize) -> (r: u32)
    requires
        scores@.len() > 0,
    ensures
        r == sorted_desc(scores@)[rank_position(scores@.len() as int, k as int)],
{
    let mut sorted = scores.clone();
    assert(sorted@ =~= scores@);
    sort_scores_desc(&mut sorted);
    proof {
        lemma_score_desc_total();
        scores@.lemma_sort_by_ensures(score_desc());
        lemma_sorted_unique(sorted@, sorted_desc(scores@), score_desc());
    }
    let last = sorted.len() - 1;
    let index = if k < last {
        k
    } else {
        last
    };
    sorted[index]
}

/// The greedy selection over the first `s.len()` scores: an index is taken
/// when its score reaches the threshold and it lies at least `d` after the
/// last index taken.
pub open spec fn greedy_selection(s: Seq<u32>, t: int, d: int) -> Seq<usize>
    decreases s.len(),
{
    if s.len() == 0 {
        Seq::empty()
    } else {
        let p = greedy_selection(s.drop_last(), t, d);
        let i = s.len() - 1;
        if s.last() >= t && (p.len() == 0 || i - p.last() >= d) {
            p.push(i as usize)
        } else {
            p
        }
    }
}

/// The selection is strictly increasing, within range, each selected score
/// reaches the threshold, and consecutive selections are at least `d` apart.
pub open spec fn well_spaced(sel: Seq<usize>, s: Seq<u32>, t: int, d: int) -> bool {
    &&& forall|a: int, b: int| 0 <= a < b < sel.len() ==> sel[a] < sel[b]
    &&& forall|a: int| 0 <= a < sel.len() ==> (#[trigger] sel[a]) < s.len()
    &&& forall|a: int| 0 <= a < sel.len() ==> s[#[trigger] sel[a] as int] >= t
    &&& forall|a: int| 0 < a < sel.len() ==> (#[trigger] sel[a]) - sel[a - 1] >= d
}

/// Every greedy selection is strictly increasing, reaches the threshold, and
/// keeps consecutive selections at least `d` apart.
pub proof fn lemma_greedy_selection_well_spaced(s: Seq<u32>, t: int, d: int)
    requires
        s.len() <= usize::MAX,
    ensures
        well_spaced(greedy_selection(s, t, d), s, t, d),
    decreases s.len(),
{
    if s.len() > 0 {
        let p0 = s.drop_last();
        lemma_greedy_selection_well_spaced(p0, t, d);
        let p = greedy_selection(p0, t, d);
        assert forall|a: int| 0 <= a < p.len() implies s[#[trigger] p[a] as int] >= t by {
            assert(s[p[a] as int] == p0[p[a] as int]);
        }
    }
}

/// Indices, in increasing order, of the scores that reach `threshold`, taken
/// greedily so that each lies at least `min_frame_distance` after the one
/// taken before it.
pub fn select_frames_smart(scores: &Vec<u32>, threshold: u64, min_frame_distance: usize) -> (r:
    Vec<usize>)
    ensures
        r@ == greedy_selection(scores@, threshold as int, min_frame_distance as int),
        well_spaced(r@, scores@, threshold as int, min_frame_distance as int),
{
    let n = scores.len();
    let ghost t = threshold as int;
    let ghost d = min_frame_distance as int;
    let mut selected: Vec<usize> = Vec::new();
    let mut idx: usize = 0;
    while idx < n
        invariant
            n == scores@.len(),
            t == threshold as int,
            d == min_frame_distance as int,
            0 <= idx <= n,
            selected@ == greedy_selection(scores@.take(idx as int), t, d),
            forall|a: int| 0 <= a < selected@.len() ==> (#[trigger] selected@[a]) < idx,
        decreases n - idx,
    {
        proof {
            assert(scores@.take(idx as int + 1).drop_last() == scores@.take(idx as int));
            assert(scores@.take(idx as int + 1).last() == scores@[idx as int]);
            assert(scores@.take(idx as int + 1).len() == idx + 1);
            lemma_greedy_selection_well_spaced(scores@.take(idx as int), t, d);
        }
        let score = scores[idx];
        let count = selected.len();
        let far_enough = count == 0 || idx - selected[count - 1] >= min_frame_distance;
        if score as u64 >= threshold && far_enough {
            selected.push(idx);
        }
        idx = idx + 1;
    }
    proof {
        assert(scores@.take(n as int) == scores@);
        lemma_greedy_selection_well_spaced(scores@, t, d);
    }
    selected
}

/// Most scores the statistical threshold takes: as many as a video has
/// frames, whose count is a `u32`.
pub const MAX_SCORES: usize = 0xFFFF_FFFF;

/// Sum of the scores.
pub open spec fn score_sum(s: Seq<u32>) -> int
    decreases s.len(),
{
    if s.len() == 0 {
        0
    } else {
        score_sum(s.drop_last()) + s.last() as int
    }
}

/// `sum (n * s[i] - total)^2`; with `n = s.len()` and `total = score_sum(s)`
/// this is `n^3` times the population variance of the scores.
pub open spec fn score_spread(s: Seq<u32>, n: int, total: int) -> int
    decreases s.len(),
{
    if s.len() == 0 {
        0
    } else {
        score_spread(s.drop_last(), n, total) + (n * s.last() - total) * (n * s.last() - total)
    }
}

/// Whether `v >= mean(s) + stddev(s) / 2`, with the population standard
/// deviation, compared exactly: writing `m = 2 * (n * v - total)`, the
/// comparison holds when `m >= 0` and `n * m^2 >= score_spread`.
pub open spec fn reaches_statistical(s: Seq<u32>, v: int) -> bool {
    let n = s.len() as int;
    let total = score_sum(s);
    let m = 2 * (n * v - total);
    m >= 0 && n * (m * m) >= score_spread(s, n, total)
}

/// `t` is the least non-negative integer with `t >= mean + stddev / 2`.
pub open spec fn is_statistical_cutoff(s: Seq<u32>, t: int) -> bool {
    &&& t >= 0
    &&& reaches_statistical(s, t)
    &&& (t == 0 || !reaches_statistical(s, t - 1))
}

proof fn lemma_score_sum_bounds(s: Seq<u32>)
    ensures
        0 <= score_sum(s) <= s.len() * 0xFFFF_FFFF,
    decreases s.len(),
{
    if s.len() > 0 {
        lemma_score_sum_bounds(s.drop_last());
    }
}

/// Sum of the squared scores.
pub open spec fn score_sq_sum(s: Seq<u32>) -> int
    decreases s.len(),
{
    if s.len() == 0 {
        0
    } else {
        score_sq_sum(s.drop_last()) + s.last() as int * s.last() as int
    }
}

proof fn lemma_score_sq_sum_bounds(s: Seq<u32>)
    ensures
        0 <= score_sq_sum(s) <= s.len() * 0xFFFF_FFFE_0000_0001,
    decreases s.len(),
{
    if s.len() > 0 {
        let p = s.drop_last();
        lemma_score_sq_sum_bounds(p);
        let v = s.last() as int;
        assert(0 <= v * v <= 0xFFFF_FFFE_0000_0001) by (nonlinear_arith)
            requires
                0 <= v <= 0xFFFF_FFFF,
        ;
    }
}

/// `score_spread` written out with the sum and the sum of squares; it is a
/// sum of squares, so never negative.
proof fn lemma_spread_expanded(s: Seq<u32>, n: int, total: int)
    ensures
        score_spread(s, n, total) == n * n * score_sq_sum(s) - 2 * n * total * score_sum(s) + s.len()
            * total * total,
        score_spread(s, n, total) >= 0,
    decreases s.len(),
{
    if s.len() > 0 {
        let p = s.drop_last();
        lemma_spread_expanded(p, n, total);
        let v = s.last() as int;
        let sp = score_spread(s, n, total);
        let spp = score_spread(p, n, total);
        assert(sp == n * n * score_sq_sum(s) - 2 * n * total * score_sum(s) + s.len() * total * total)
            by (nonlinear_arith)
            requires
                spp == n * n * score_sq_sum(p) - 2 * n * total * score_sum(p) + p.len() * total * total,
                sp == spp + (n * v - total) * (n * v - total),
                score_sq_sum(s) == score_sq_sum(p) + v * v,
                score_sum(s) == score_sum(p) + v,
                s.len() == p.len() + 1,
        ;
        assert((n * v - total) * (n * v - total) >= 0) by (nonlinear_arith);
    }
}

/// Reaching the statistical threshold is upward closed.
pub proof fn lemma_reaches_statistical_monotone(s: Seq<u32>, v: int, w: int)
    requires
        reaches_statistical(s, v),
        v <= w,
    ensures
        reaches_statistical(s, w),
{
    let n = s.len() as int;
    let total = score_sum(s);
    let m = 2 * (n * v - total);
    let k = 2 * (n * w - total);
    assert(n >= 0);
    assert(m <= k) by (nonlinear_arith)
        requires
            m == 2 * (n * v - total),
            k == 2 * (n * w - total),
            v <= w,
            n >= 0,
    ;
    assert(n * (m * m) <= n * (k * k)) by (nonlinear_arith)
        requires
            0 <= m <= k,
            n >= 0,
    ;
}

/// The least non-negative integer `t` with `t >= mean + stddev / 2`
/// (population standard deviation), for non-empty scores.
///
/// With `n` scores summing to `total`, `score_spread` is `n * d` where
/// `d = n * sum(s^2) - total^2`; the cutoff is `ceil((m + 2 * total) / (2 * n))`
/// for the least `m >= 0` with `m^2 >= d`.
pub fn statistical_cutoff(scores: &Vec<u32>) -> (r: u64)
    requires
        0 < scores@.len() <= MAX_SCORES,
    ensures
        is_statistical_cutoff(scores@, r as int),
{
    let len = scores.len();
    let ghost s = scores@;
    let mut total: u64 = 0;
    let mut squares: u128 = 0;
    let mut i: usize = 0;
    while i < len
        invariant
            s == scores@,
            len == s.len(),
            len <= MAX_SCORES,
            0 <= i <= len,
            total == score_sum(s.take(i as int)),
            squares == score_sq_sum(s.take(i as int)),
            total <= i * 0xFFFF_FFFF,
            squares <= i * 0xFFFF_FFFE_0000_0001,
        decreases len - i,
    {
        proof {
            assert(s.take(i as int + 1).drop_last() == s.take(i as int));
        }
        let v = scores[i];
        proof {
            assert((i + 1) * 0xFFFF_FFFF <= 0xFFFF_FFFE_0000_0001) by (nonlinear_arith)
                requires
                    i + 1 <= 0xFFFF_FFFF,
            ;
            assert(v * v <= 0xFFFF_FFFE_0000_0001) by (nonlinear_arith)
                requires
                    v <= 0xFFFF_FFFF,
            ;
            assert((i + 1) * 0xFFFF_FFFE_0000_0001 <= 0xFFFF_FFFD_0000_0002_FFFF_FFFF) by (nonlinear_arith)
                requires
                    i + 1 <= 0xFFFF_FFFF,
            ;
        }
        total = total + v as u64;
        squares = squares + (v as u128) * (v as u128);
        i = i + 1;
    }
    proof {
        assert(s.take(len as int) == s);
    }
    let n: u128 = len as u128;
    let ghost ni = len as int;
    let ghost ti = total as int;
    let ghost qi = squares as int;
    let ghost spread = score_spread(s, ni, ti);
    let top: u128 = n * 0xFFFF_FFFF;
    proof {
        lemma_spread_expanded(s, ni, ti);
        assert(spread == ni * (ni * qi - ti * ti)) by (nonlinear_arith)
            requires
                spread == ni * ni * qi - 2 * ni * ti * ti + ni * ti * ti,
        ;
        assert(ni * qi - ti * ti >= 0) by (nonlinear_arith)
            requires
                spread == ni * (ni * qi - ti * ti),
                spread >= 0,
                ni >= 1,
        ;
        assert(ni * qi <= top * top) by (nonlinear_arith)
            requires
                qi <= ni * 0xFFFF_FFFE_0000_0001,
                top == ni * 0xFFFF_FFFF,
                ni >= 1,
        ;
        assert(top * top <= 0xFFFF_FFFC_0000_0005_FFFF_FFFC_0000_0001) by (nonlinear_arith)
            requires
                top == ni * 0xFFFF_FFFF,
                1 <= ni <= 0xFFFF_FFFF,
        ;
        assert(ti * ti <= top * top) by (nonlinear_arith)
            requires
                0 <= ti <= ni * 0xFFFF_FFFF,
                top == ni * 0xFFFF_FFFF,
        ;
    }
    let nq: u128 = n * squares;
    let tt: u128 = (total as u128) * (total as u128);
    let d: u128 = nq - tt;
    // Least m >= 0 with m^2 >= d; top^2 >= n * sum(s^2) >= d.
    let mut lo: u128 = 0;
    let mut hi: u128 = top;
    while lo < hi
        invariant
            top * top <= 0xFFFF_FFFC_0000_0005_FFFF_FFFC_0000_0001,
            lo <= hi <= top,
            hi * hi >= d,
            forall|m: int| 0 <= m < lo ==> #[trigger] (m * m) < d,
        decreases hi - lo,
    {
        let mid = lo + (hi - lo) / 2;
        proof {
            assert(mid * mid <= top * top) by (nonlinear_arith)
                requires
                    0 <= mid <= top,
            ;
        }
        if mid * mid >= d {
            hi = mid;
        } else {
            proof {
                assert forall|m: int| 0 <= m < mid + 1 implies #[trigger] (m * m) < d by {
                    assert(m * m <= mid * mid) by (nonlinear_arith)
                        requires
                            0 <= m <= mid,
                    ;
                }
            }
            lo = mid + 1;
        }
    }
    let least = lo;
    // Least t with 2 * (n * t - total) >= least.
    let two_n: u128 = 2 * n;
    let numer: u128 = least + 2 * (total as u128) + two_n - 1;
    let t: u128 = numer / two_n;
    proof {
        let tv = t as int;
        vstd::arithmetic::div_mod::lemma_fundamental_div_mod(numer as int, two_n as int);
        let rem = numer as int % two_n as int;
        assert(numer == two_n * tv + rem);
        assert(2 * (ni * tv - ti) >= least) by (nonlinear_arith)
            requires
                numer == two_n * tv + rem,
                0 <= rem < two_n,
                two_n == 2 * ni,
                numer == least + 2 * ti + two_n - 1,
        ;
        let m = 2 * (ni * tv - ti);
        assert(ni * (m * m) >= spread) by (nonlinear_arith)
            requires
                m >= least >= 0,
                least * least >= d,
                d == ni * qi - ti * ti,
                spread == ni * (ni * qi - ti * ti),
                ni >= 1,
        ;
        assert(reaches_statistical(s, tv));
        if tv > 0 {
            let m1 = 2 * (ni * (tv - 1) - ti);
            assert(m1 < least) by (nonlinear_arith)
                requires
                    numer == two_n * tv + rem,
                    0 <= rem < two_n,
                    two_n == 2 * ni,
                    numer == least + 2 * ti + two_n - 1,
                    m1 == 2 * (ni * (tv - 1) - ti),
            ;
            if m1 >= 0 {
                assert(m1 * m1 < d);
                assert(ni * (m1 * m1) < spread) by (nonlinear_arith)
                    requires
                        m1 * m1 < d,
                        d == ni * qi - ti * ti,
                        spread == ni * (ni * qi - ti * ti),
                        ni >= 1,
                ;
            }
            assert(!reaches_statistical(s, tv - 1));
        }
        assert(tv <= 0xFFFF_FFFF_FFFF_FFFF) by (nonlinear_arith)
            requires
                numer == two_n * tv + rem,
                0 <= rem,
                two_n == 2 * ni,
                ni >= 1,
                numer == least + 2 * ti + two_n - 1,
                least <= ni * 0xFFFF_FFFF,
                ti <= ni * 0xFFFF_FFFF,
        ;
    }
    t as u64
}

/// An integer score reaches the cutoff exactly when it reaches
/// `mean + stddev / 2`: comparing scores against the cutoff selects the same
/// frames as comparing them against the real-valued threshold.
pub proof fn lemma_cutoff_compares_exactly(s: Seq<u32>, t: int, v: int)
    requires
        is_statistical_cutoff(s, t),
        v >= 0,
    ensures
        v >= t <==> reaches_statistical(s, v),
{
    if v >= t {
        lemma_reaches_statistical_monotone(s, t, v);
    } else if reaches_statistical(s, v) {
        lemma_reaches_statistical_monotone(s, v, t - 1);
    }
}

/// The statistical cutoff of a sequence of scores is unique: two calls on the
/// same scores, in the same order, give the same threshold.
pub proof fn lemma_statistical_cutoff_unique(s: Seq<u32>, t1: int, t2: int)
    requires
        is_statistical_cutoff(s, t1),
        is_statistical_cutoff(s, t2),
    ensures
        t1 == t2,
{
    if t1 < t2 {
        lemma_reaches_statistical_monotone(s, t1, t2 - 1);
    } else if t2 < t1 {
        lemma_reaches_statistical_monotone(s, t2, t1 - 1);
    }
}

/// Sharpness cutoff for a set of scores.
///
/// No scores give 0. With a target count `k`, the cutoff is the score at
/// position `min(k, len - 1)` of the scores sorted from highest to lowest
/// (ties at that score may admit more than `k` frames). Without one, it is
/// the least integer at or above `mean + stddev / 2`, with the population
/// standard deviation.
pub fn calculate_auto_threshold(sharpness_scores: &Vec<u32>, target_frame_count: Option<usize>) -> (r: u64)
    requires
        target_frame_count is Some || sharpness_scores@.len() <= MAX_SCORES,
    ensures
        sharpness_scores@.len() == 0 ==> r == 0,
        sharpness_scores@.len() > 0 ==> match target_frame_count {
            Some(k) => r == sorted_desc(sharpness_scores@)[rank_position(
                sharpness_scores@.len() as int,
                k as int,
            )],
            None => is_statistical_cutoff(sharpness_scores@, r as int),
        },
{
    if sharpness_scores.len() == 0 {
        return 0;
    }
    match target_frame_count {
        Some(count) => kth_highest(sharpness_scores, count) as u64,
        None => statistical_cutoff(sharpness_scores),
    }
}

} // verus!
