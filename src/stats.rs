//! Integer statistics over Laplacian responses.
use vstd::prelude::*;

verus! {

/// Largest magnitude of one Laplacian response over 8-bit samples: four
/// neighbours at 255 around a centre at 0 (or the reverse).
pub const LAPLACIAN_BOUND: i32 = 1020;

/// Variances are reported in thousandths.
pub const MILLI: u128 = 1000;

/// Sum of a sequence of responses.
pub open spec fn sum_of(s: Seq<i32>) -> int
    decreases s.len(),
{
    if s.len() == 0 {
        0
    } else {
        sum_of(s.drop_last()) + s.last() as int
    }
}

/// Sum of the squared deviations, each scaled by `n`: `sum (n * s[i] - total)^2`.
/// With `n = s.len()` and `total = sum_of(s)` this is `n^2` times the sum of
/// squared deviations from the mean.
pub open spec fn scaled_spread(s: Seq<i32>, n: int, total: int) -> int
    decreases s.len(),
{
    if s.len() == 0 {
        0
    } else {
        scaled_spread(s.drop_last(), n, total) + (n * s.last() - total) * (n * s.last() - total)
    }
}

/// Population variance (divisor `n`) of the responses, in thousandths,
/// rounded down; `0` for no responses.
pub open spec fn variance_milli(s: Seq<i32>) -> int {
    let n = s.len() as int;
    if n == 0 {
        0
    } else {
        scaled_spread(s, n, sum_of(s)) * 1000 / (n * n * n)
    }
}

/// Every response lies within what 8-bit samples can produce.
pub open spec fn responses_in_range(s: Seq<i32>) -> bool {
    forall|i: int| 0 <= i < s.len() ==> -LAPLACIAN_BOUND <= #[trigger] s[i] <= LAPLACIAN_BOUND
}

pub proof fn lemma_sum_bounds(s: Seq<i32>)
    requires
        responses_in_range(s),
    ensures
        -1020 * s.len() <= sum_of(s) <= 1020 * s.len(),
    decreases s.len(),
{
    if s.len() > 0 {
        lemma_sum_bounds(s.drop_last());
    }
}

pub proof fn lemma_spread_bounds(s: Seq<i32>, n: int, total: int)
    requires
        responses_in_range(s),
        n >= 0,
        -1020 * n <= total <= 1020 * n,
    ensures
        0 <= scaled_spread(s, n, total) <= s.len() * (4161600 * (n * n)),
    decreases s.len(),
{
    if s.len() > 0 {
        let p = s.drop_last();
        lemma_spread_bounds(p, n, total);
        let d = n * s.last() - total;
        assert(-2040 * n <= d <= 2040 * n) by (nonlinear_arith)
            requires
                d == n * s.last() - total,
                -1020 <= s.last() <= 1020,
                -1020 * n <= total <= 1020 * n,
                n >= 0,
        ;
        assert(0 <= d * d <= 4161600 * (n * n)) by (nonlinear_arith)
            requires
                -2040 * n <= d <= 2040 * n,
                n >= 0,
        ;
        assert(p.len() * (4161600 * (n * n)) + 4161600 * (n * n) == s.len() * (4161600 * (n
            * n))) by (nonlinear_arith)
            requires
                p.len() + 1 == s.len(),
        ;
    }
}

/// Responses that are all zero have zero sum and zero spread.
pub proof fn lemma_zero_responses(s: Seq<i32>, n: int)
    requires
        forall|i: int| 0 <= i < s.len() ==> #[trigger] s[i] == 0,
    ensures
        sum_of(s) == 0,
        scaled_spread(s, n, 0) == 0,
    decreases s.len(),
{
    if s.len() > 0 {
        lemma_zero_responses(s.drop_last(), n);
        let v = s.last() as int;
        assert(v == 0);
        assert((n * v - 0) * (n * v - 0) == 0) by (nonlinear_arith)
            requires
                v == 0,
        ;
    }
}

/// Population variance of responses, in thousandths, rounded down.
pub fn population_variance_milli(values: &Vec<i32>) -> (r: u32)
    requires
        values@.len() < 0x1_0000_0000,
        responses_in_range(values@),
    ensures
        r == variance_milli(values@),
{
    let len = values.len();
    if len == 0 {
        return 0;
    }
    let ghost s = values@;
    let mut total: i64 = 0;
    let mut i: usize = 0;
    while i < len
        invariant
            s == values@,
            len == s.len(),
            len < 0x1_0000_0000,
            responses_in_range(s),
            0 <= i <= len,
            total == sum_of(s.take(i as int)),
            -1020 * i <= total <= 1020 * i,
        decreases len - i,
    {
        proof {
            assert(s.take(i as int + 1).drop_last() == s.take(i as int));
        }
        total = total + values[i] as i64;
        i = i + 1;
    }
    proof {
        assert(s.take(len as int) == s);
    }
    let n: i128 = len as i128;
    let ghost ni = len as int;
    let mut acc: u128 = 0;
    let mut j: usize = 0;
    while j < len
        invariant
            s == values@,
            len == s.len(),
            ni == len,
            n == ni,
            1 <= ni < 0x1_0000_0000,
            responses_in_range(s),
            total == sum_of(s),
            -1020 * ni <= total <= 1020 * ni,
            0 <= j <= len,
            acc == scaled_spread(s.take(j as int), ni, total as int),
        decreases len - j,
    {
        let ghost t = s.take(j as int + 1);
        proof {
            assert(t.drop_last() == s.take(j as int));
            assert(responses_in_range(t));
            lemma_spread_bounds(t, ni, total as int);
            assert(t.len() * (4161600 * (ni * ni)) <= 0x1_0000_0000 * (4161600 * (
            0x1_0000_0000 * 0x1_0000_0000))) by (nonlinear_arith)
                requires
                    t.len() <= ni,
                    1 <= ni < 0x1_0000_0000,
            ;
        }
        let v = values[j] as i128;
        proof {
            assert(-1020 <= v <= 1020);
            assert(-1020 * 0x1_0000_0000 <= n * v <= 1020 * 0x1_0000_0000) by (nonlinear_arith)
                requires
                    -1020 <= v <= 1020,
                    1 <= n < 0x1_0000_0000,
            ;
        }
        let d: i128 = n * v - total as i128;
        proof {
            assert(0 <= d * d <= 4161600 * (ni * ni)) by (nonlinear_arith)
                requires
                    d == n * v - total,
                    -1020 <= v <= 1020,
                    -1020 * ni <= total <= 1020 * ni,
                    n == ni,
                    ni >= 1,
            ;
            assert(4161600 * (ni * ni) <= 4161600 * (0x1_0000_0000 * 0x1_0000_0000))
                by (nonlinear_arith)
                requires
                    1 <= ni < 0x1_0000_0000,
            ;
        }
        let sq: u128 = (d * d) as u128;
        acc = acc + sq;
        j = j + 1;
    }
    proof {
        assert(s.take(len as int) == s);
        lemma_spread_bounds(s, ni, total as int);
        assert(acc * 1000 <= 0x1_0000_0000_0000_0000_0000_0000_0000_0000) by (nonlinear_arith)
            requires
                acc <= ni * (4161600 * (ni * ni)),
                1 <= ni < 0x1_0000_0000,
        ;
        assert(acc * 1000 / (ni * ni * ni) <= 4161600000) by (nonlinear_arith)
            requires
                acc <= ni * (4161600 * (ni * ni)),
                1 <= ni,
        ;
    }
    proof {
        assert(ni * ni * ni < 0x1_0000_0000 * 0x1_0000_0000 * 0x1_0000_0000) by (nonlinear_arith)
            requires
                1 <= ni < 0x1_0000_0000,
        ;
        assert(ni * ni * ni >= 1) by (nonlinear_arith)
            requires
                1 <= ni,
        ;
        assert(ni * ni < 0x1_0000_0000 * 0x1_0000_0000) by (nonlinear_arith)
            requires
                1 <= ni < 0x1_0000_0000,
        ;
    }
    let cube: u128 = (len as u128) * (len as u128) * (len as u128);
    let r = acc * MILLI / cube;
    r as u32
}

} // verus!
