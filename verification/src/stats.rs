//! Sums, means and spreads of fixed-point samples.

use crate::numeric::{floor_div_rem, Mean, Ratio, Variance, SCALE};
use vstd::arithmetic::div_mod::{
    lemma_div_is_ordered, lemma_div_multiples_vanish, lemma_fundamental_div_mod,
};
use vstd::prelude::*;

verus! {

/// Sum of the samples `s[lo], .., s[hi - 1]`.
pub open spec fn range_sum(s: Seq<i32>, lo: int, hi: int) -> int
    decreases hi - lo,
{
    if hi <= lo {
        0
    } else {
        range_sum(s, lo, hi - 1) + s[hi - 1]
    }
}

/// Sum of all samples.
pub open spec fn sum(s: Seq<i32>) -> int {
    range_sum(s, 0, s.len() as int)
}

/// Arithmetic mean, rounded down.
pub open spec fn mean_floor(s: Seq<i32>) -> int
    recommends
        s.len() > 0,
{
    sum(s) / (s.len() as int)
}

/// A sum of `hi - lo` samples lies between that many smallest and largest
/// sample values.
pub proof fn lemma_range_sum_bounds(s: Seq<i32>, lo: int, hi: int)
    requires
        0 <= lo <= hi <= s.len(),
    ensures
        (hi - lo) * i32::MIN <= range_sum(s, lo, hi) <= (hi - lo) * i32::MAX,
    decreases hi - lo,
{
    if lo < hi {
        lemma_range_sum_bounds(s, lo, hi - 1);
        assert((hi - lo) * i32::MIN == (hi - 1 - lo) * i32::MIN + i32::MIN) by (nonlinear_arith);
        assert((hi - lo) * i32::MAX == (hi - 1 - lo) * i32::MAX + i32::MAX) by (nonlinear_arith);
    }
}

/// The mean of a non-empty sequence lies between the smallest and the largest
/// sample value.
pub proof fn lemma_mean_bounds(s: Seq<i32>)
    requires
        s.len() > 0,
    ensures
        i32::MIN <= mean_floor(s) <= i32::MAX,
{
    let n: int = s.len() as int;
    lemma_range_sum_bounds(s, 0, n);
    lemma_div_is_ordered(n * i32::MIN, sum(s), n);
    lemma_div_is_ordered(sum(s), n * i32::MAX, n);
    lemma_div_multiples_vanish(i32::MIN as int, n);
    lemma_div_multiples_vanish(i32::MAX as int, n);
}

/// Sum of the samples between two positions of a slice.
pub fn window_sum(values: &[i32], lo: usize, hi: usize) -> (total: i128)
    requires
        lo <= hi <= values.len(),
    ensures
        total == range_sum(values@, lo as int, hi as int),
{
    let mut total: i128 = 0;
    let mut i: usize = lo;
    while i < hi
        invariant
            lo <= i <= hi <= values.len(),
            total == range_sum(values@, lo as int, i as int),
        decreases hi - i,
    {
        proof {
            lemma_range_sum_bounds(values@, lo as int, i as int);
            assert((i - lo) * i32::MAX <= usize::MAX * i32::MAX) by (nonlinear_arith)
                requires
                    0 <= i - lo <= usize::MAX,
            ;
            assert((i - lo) * i32::MIN >= usize::MAX * i32::MIN) by (nonlinear_arith)
                requires
                    0 <= i - lo <= usize::MAX,
            ;
        }
        total = total + values[i] as i128;
        i = i + 1;
    }
    total
}

/// Whether `m` is the mean of the samples `s`: their sum over their number.
pub open spec fn is_mean_of(m: Mean, s: Seq<i32>) -> bool {
    m.total == sum(s) && m.count == s.len()
}

/// Mean of a slice. It lies within the range of a sample.
pub fn compute_mean(values: &[i32]) -> (m: Mean)
    ensures
        is_mean_of(m, values@),
        i32::MIN * m.count <= m.total <= i32::MAX * m.count,
{
    proof {
        lemma_range_sum_bounds(values@, 0, values.len() as int);
        assert(i32::MIN * values.len() == values.len() * i32::MIN) by (nonlinear_arith);
        assert(i32::MAX * values.len() == values.len() * i32::MAX) by (nonlinear_arith);
    }
    Mean { total: window_sum(values, 0, values.len()), count: values.len() as u64 }
}

/// Sum of `(n * s[i] - total)^2` over the first `k` samples. With `n` the
/// length and `total` the sum of `s`, the term under the square is `n` times
/// the distance of `s[i]` from the exact mean.
pub open spec fn scaled_sq_dev(s: Seq<i32>, n: int, total: int, k: int) -> int
    decreases k,
{
    if k <= 0 {
        0
    } else {
        scaled_sq_dev(s, n, total, k - 1) + (n * s[k - 1] - total) * (n * s[k - 1] - total)
    }
}

/// Whether `v` is the population variance of the samples `s`, the mean of
/// their squared distances from their exact mean. Its three parts are as
/// their type describes them, and its value is `scaled_sq_dev / n^2` over
/// `n`, for `n` samples: `n^2` times its value is what `scaled()` gives.
pub open spec fn is_variance_of(v: Variance, s: Seq<i32>) -> bool {
    let n = s.len() as int;
    &&& v.count == n
    &&& v.count * v.scaled() == scaled_sq_dev(s, n, sum(s), n)
    &&& if n == 0 {
        v.squares == 0 && v.rest == 0
    } else {
        v.squares == shifted_sq_sum(s, mean_floor(s), n) && v.rest == sum(s) % n
    }
}

/// Sum of `(s[i] - q)^2` over the first `k` samples.
pub open spec fn shifted_sq_sum(s: Seq<i32>, q: int, k: int) -> int
    decreases k,
{
    if k <= 0 {
        0
    } else {
        shifted_sq_sum(s, q, k - 1) + (s[k - 1] - q) * (s[k - 1] - q)
    }
}

/// A sum of squares is not negative.
pub proof fn lemma_scaled_sq_dev_nonnegative(s: Seq<i32>, n: int, total: int, k: int)
    ensures
        scaled_sq_dev(s, n, total, k) >= 0,
    decreases k,
{
    if k > 0 {
        lemma_scaled_sq_dev_nonnegative(s, n, total, k - 1);
        let t = n * s[k - 1] - total;
        assert(t * t >= 0) by (nonlinear_arith);
    }
}

/// Two samples are less than `2^32` apart, and so is a sample from a mean.
proof fn lemma_shifted_sq_sum_bounds(s: Seq<i32>, q: int, k: int)
    requires
        0 <= k <= s.len(),
        i32::MIN <= q <= i32::MAX,
    ensures
        0 <= shifted_sq_sum(s, q, k) <= k * (0xffff_ffff * 0xffff_ffff),
    decreases k,
{
    if k > 0 {
        lemma_shifted_sq_sum_bounds(s, q, k - 1);
        let d = s[k - 1] - q;
        assert(0 <= d * d <= 0xffff_ffff * 0xffff_ffff) by (nonlinear_arith)
            requires
                -0xffff_ffff <= d <= 0xffff_ffff,
        ;
        assert(k * (0xffff_ffff * 0xffff_ffff) == (k - 1) * (0xffff_ffff * 0xffff_ffff)
            + 0xffff_ffff * 0xffff_ffff) by (nonlinear_arith);
    }
}

/// Squared distances from the exact mean, expressed through squared distances
/// from any integer `q`.
proof fn lemma_scaled_by_shifted(s: Seq<i32>, n: int, total: int, q: int, k: int)
    requires
        0 <= k <= s.len(),
    ensures
        scaled_sq_dev(s, n, total, k) == n * n * shifted_sq_sum(s, q, k) - 2 * n * (total - n * q)
            * (range_sum(s, 0, k) - k * q) + k * (total - n * q) * (total - n * q),
    decreases k,
{
    let r = total - n * q;
    if k > 0 {
        lemma_scaled_by_shifted(s, n, total, q, k - 1);
        let x = s[k - 1] as int;
        let a0 = shifted_sq_sum(s, q, k - 1);
        let d0 = range_sum(s, 0, k - 1) - (k - 1) * q;
        assert(range_sum(s, 0, k) - k * q == d0 + (x - q)) by (nonlinear_arith)
            requires
                range_sum(s, 0, k) == range_sum(s, 0, k - 1) + x,
                d0 == range_sum(s, 0, k - 1) - (k - 1) * q,
        ;
        assert((n * x - total) * (n * x - total) == n * n * ((x - q) * (x - q)) - 2 * n * r * (x
            - q) + r * r) by (nonlinear_arith)
            requires
                r == total - n * q,
        ;
        assert(n * n * (a0 + (x - q) * (x - q)) == n * n * a0 + n * n * ((x - q) * (x - q)))
            by (nonlinear_arith);
        assert(2 * n * r * (d0 + (x - q)) == 2 * n * r * d0 + 2 * n * r * (x - q))
            by (nonlinear_arith);
        assert(k * r * r == (k - 1) * r * r + r * r) by (nonlinear_arith);
    } else {
        assert(n * n * 0 - 2 * n * r * (0 - 0 * q) + 0 * r * r == 0) by (nonlinear_arith);
    }
}

/// With `q` the mean rounded down, `r` what the sum has left over and `a`
/// the sum of the squared distances from `q`, the squared distances from the
/// exact mean, times `n^3`, sum to `n * (n * a - r^2)`.
proof fn lemma_variance_from_shifted(s: Seq<i32>, q: int, r: int, a: int)
    requires
        s.len() > 0,
        q == mean_floor(s),
        r == sum(s) - s.len() * q,
        a == shifted_sq_sum(s, q, s.len() as int),
    ensures
        0 <= r < s.len(),
        r == sum(s) % (s.len() as int),
        s.len() * (s.len() * a - r * r) == scaled_sq_dev(s, s.len() as int, sum(s), s.len() as int),
{
    let n = s.len() as int;
    let total = sum(s);
    let t = scaled_sq_dev(s, n, total, n);
    lemma_fundamental_div_mod(total, n);
    assert(n * q == q * n) by (nonlinear_arith);
    assert(r == total % n);
    lemma_scaled_by_shifted(s, n, total, q, n);
    assert(t == n * (n * a - r * r)) by (nonlinear_arith)
        requires
            t == n * n * a - 2 * n * r * r + n * r * r,
    ;
}

/// Population variance of a slice. Its root is the standard deviation.
pub fn compute_variability(signal: &[i32]) -> (spread: Variance)
    ensures
        is_variance_of(spread, signal@),
{
    // The sum of the squared samples times their number need not fit 128
    // bits; the squared distances from the rounded-down mean always do.
    let n: usize = signal.len();
    if n == 0 {
        assert(0int * (0int * 0int - 0int * 0int) == 0);
        return Variance { squares: 0, rest: 0, count: 0 };
    }
    let total: i128 = window_sum(signal, 0, n);
    let (q, r) = floor_div_rem(total, n as u64);
    proof {
        lemma_mean_bounds(signal@);
        lemma_fundamental_div_mod(total as int, n as int);
        assert(n * q == q * n) by (nonlinear_arith);
        lemma_variance_from_shifted(
            signal@,
            q as int,
            r as int,
            shifted_sq_sum(signal@, q as int, n as int),
        );
    }
    let mut a: u128 = 0;
    let mut i: usize = 0;
    while i < n
        invariant
            i <= n == signal.len(),
            i32::MIN <= q <= i32::MAX,
            a == shifted_sq_sum(signal@, q as int, i as int),
        decreases n - i,
    {
        let d: i128 = signal[i] as i128 - q;
        proof {
            lemma_shifted_sq_sum_bounds(signal@, q as int, i as int);
            lemma_shifted_sq_sum_bounds(signal@, q as int, i + 1);
            assert(0 <= d * d <= 0xffff_ffff * 0xffff_ffff) by (nonlinear_arith)
                requires
                    -0xffff_ffff <= d <= 0xffff_ffff,
            ;
            assert((i + 1) * (0xffff_ffff * 0xffff_ffff) <= 0xffff_ffff_ffff_ffff * (0xffff_ffff
                * 0xffff_ffff)) by (nonlinear_arith)
                requires
                    i + 1 <= 0xffff_ffff_ffff_ffff,
            ;
        }
        a = a + (d * d) as u128;
        i = i + 1;
    }
    Variance { squares: a, rest: r, count: n as u64 }
}

/// Variance of the RR intervals. Its root is SDNN.
pub fn compute_sdnn(rr_intervals: &[i32]) -> (spread: Variance)
    ensures
        is_variance_of(spread, rr_intervals@),
{
    compute_variability(rr_intervals)
}

/// The step from sample `i` to sample `i + 1`.
pub open spec fn step(s: Seq<i32>, i: int) -> int {
    s[i + 1] - s[i]
}

/// Sum of the squares of the first `k` steps.
pub open spec fn sum_sq_steps(s: Seq<i32>, k: int) -> int
    decreases k,
{
    if k <= 0 {
        0
    } else {
        sum_sq_steps(s, k - 1) + step(s, k - 1) * step(s, k - 1)
    }
}

/// Number of steps between `len` samples.
pub open spec fn step_count(len: nat) -> int {
    if len == 0 {
        0
    } else {
        len - 1
    }
}

/// Whether `r` is the mean square of the successive differences of `s`: the
/// sum of the squared steps over their number. RMSSD is its square root.
pub open spec fn is_mean_square_step_of(r: Ratio, s: Seq<i32>) -> bool {
    r.numerator == sum_sq_steps(s, step_count(s.len())) && r.denominator == step_count(s.len())
}

/// How many of the first `k` steps are larger than `threshold` in magnitude.
pub open spec fn count_steps_over(s: Seq<i32>, threshold: int, k: int) -> int
    decreases k,
{
    if k <= 0 {
        0
    } else {
        count_steps_over(s, threshold, k - 1) + if step(s, k - 1) > threshold
            || -step(s, k - 1) > threshold
        {
            1int
        } else {
            0int
        }
    }
}

/// Magnitude, in thousandths of a millisecond, that a step between RR
/// intervals has to exceed to be counted by pNN50.
pub const NN50_THRESHOLD: u32 = 50 * SCALE;

/// Magnitude, in thousandths, that a step of the eye-movement channel has to
/// exceed to count as a movement.
pub const EYE_MOVEMENT_THRESHOLD: u32 = SCALE / 10;

/// Whether `r` is pNN50 of the intervals `s`, in percent: a hundred times
/// the number of steps beyond 50 ms, over the number of steps.
pub open spec fn is_pnn50_of(r: Ratio, s: Seq<i32>) -> bool {
    r.numerator == 100 * count_steps_over(s, NN50_THRESHOLD as int, step_count(s.len()))
        && r.denominator == step_count(s.len())
}

/// Whether `r` is the rate of movements in `s`, in thousandths of a hertz:
/// the number of steps beyond the movement threshold times the sampling
/// rate, over the number of steps. Zero for fewer than two samples.
pub open spec fn is_movement_frequency_of(r: Ratio, s: Seq<i32>, sampling_rate: int) -> bool {
    if s.len() < 2 {
        r.numerator == 0 && r.denominator == 1
    } else {
        r.numerator == count_steps_over(s, EYE_MOVEMENT_THRESHOLD as int, s.len() - 1)
            * sampling_rate && r.denominator == s.len() - 1
    }
}

/// A step is less than `2^32` in magnitude.
proof fn lemma_sum_sq_steps_bounds(s: Seq<i32>, k: int)
    requires
        0 <= k < s.len(),
    ensures
        0 <= sum_sq_steps(s, k) <= k * (0xffff_ffff * 0xffff_ffff),
    decreases k,
{
    if k > 0 {
        lemma_sum_sq_steps_bounds(s, k - 1);
        let d = step(s, k - 1);
        assert(0 <= d * d <= 0xffff_ffff * 0xffff_ffff) by (nonlinear_arith)
            requires
                -0xffff_ffff <= d <= 0xffff_ffff,
        ;
        assert(k * (0xffff_ffff * 0xffff_ffff) == (k - 1) * (0xffff_ffff * 0xffff_ffff)
            + 0xffff_ffff * 0xffff_ffff) by (nonlinear_arith);
    }
}

/// No more steps are counted than there are.
pub proof fn lemma_count_steps_over_bounds(s: Seq<i32>, threshold: int, k: int)
    requires
        0 <= k,
    ensures
        0 <= count_steps_over(s, threshold, k) <= k,
    decreases k,
{
    if k > 0 {
        lemma_count_steps_over_bounds(s, threshold, k - 1);
    }
}

/// Mean square of the successive differences. Its root is RMSSD.
pub fn compute_rmssd(rr_intervals: &[i32]) -> (mean_square: Ratio)
    ensures
        is_mean_square_step_of(mean_square, rr_intervals@),
{
    let n: usize = rr_intervals.len();
    if n == 0 {
        return Ratio { numerator: 0, denominator: 0 };
    }
    let mut total: u128 = 0;
    let mut i: usize = 0;
    while i < n - 1
        invariant
            i <= n - 1,
            n == rr_intervals.len(),
            total == sum_sq_steps(rr_intervals@, i as int),
        decreases n - 1 - i,
    {
        let d: i128 = rr_intervals[i + 1] as i128 - rr_intervals[i] as i128;
        proof {
            lemma_sum_sq_steps_bounds(rr_intervals@, i + 1);
            assert(d == step(rr_intervals@, i as int));
            assert(0 <= d * d <= 0xffff_ffff * 0xffff_ffff) by (nonlinear_arith)
                requires
                    -0xffff_ffff <= d <= 0xffff_ffff,
            ;
            assert((i + 1) * (0xffff_ffff * 0xffff_ffff) <= 0xffff_ffff_ffff_ffff * (0xffff_ffff
                * 0xffff_ffff)) by (nonlinear_arith)
                requires
                    i + 1 <= 0xffff_ffff_ffff_ffff,
            ;
        }
        total = total + (d * d) as u128;
        i = i + 1;
    }
    Ratio { numerator: total, denominator: (n - 1) as u64 }
}

/// Counts the steps of a slice that are larger than `threshold` in magnitude.
pub fn count_large_steps(values: &[i32], threshold: u32) -> (count: usize)
    ensures
        count == count_steps_over(values@, threshold as int, values.len() - 1),
{
    let n: usize = values.len();
    let mut count: usize = 0;
    if n == 0 {
        return count;
    }
    let mut i: usize = 0;
    while i < n - 1
        invariant
            i <= n - 1,
            n == values.len(),
            count == count_steps_over(values@, threshold as int, i as int),
            count <= i,
        decreases n - 1 - i,
    {
        let d: i64 = values[i + 1] as i64 - values[i] as i64;
        if d > threshold as i64 || -d > threshold as i64 {
            count = count + 1;
        }
        i = i + 1;
    }
    count
}

/// pNN50, in percent: the share of successive differences beyond 50 ms. It
/// is at most a hundred.
pub fn compute_pnn50(rr_intervals: &[i32]) -> (share: Ratio)
    ensures
        is_pnn50_of(share, rr_intervals@),
        share.numerator <= 100 * share.denominator,
{
    let n: usize = rr_intervals.len();
    let steps: usize = if n == 0 {
        0
    } else {
        n - 1
    };
    let count: usize = count_large_steps(rr_intervals, NN50_THRESHOLD);
    proof {
        lemma_count_steps_over_bounds(rr_intervals@, NN50_THRESHOLD as int, steps as int);
    }
    Ratio { numerator: 100 * (count as u128), denominator: steps as u64 }
}

/// Rate of significant eye movements, in thousandths of a hertz. It is at
/// most the sampling rate.
pub fn compute_eye_movement_frequency(eye_movement: &[i32], sampling_rate: u32) -> (frequency: Ratio)
    ensures
        is_movement_frequency_of(frequency, eye_movement@, sampling_rate as int),
        frequency.denominator > 0,
        frequency.numerator <= sampling_rate * frequency.denominator,
{
    if eye_movement.len() < 2 {
        return Ratio { numerator: 0, denominator: 1 };
    }
    let steps: usize = eye_movement.len() - 1;
    let count: usize = count_large_steps(eye_movement, EYE_MOVEMENT_THRESHOLD);
    proof {
        lemma_count_steps_over_bounds(
            eye_movement@,
            EYE_MOVEMENT_THRESHOLD as int,
            steps as int,
        );
        assert(count * sampling_rate <= sampling_rate * steps) by (nonlinear_arith)
            requires
                0 <= count <= steps,
                0 <= sampling_rate,
        ;
        assert(count * sampling_rate <= 0xffff_ffff_ffff_ffff * 0xffff_ffff) by (nonlinear_arith)
            requires
                0 <= count <= 0xffff_ffff_ffff_ffff,
                0 <= sampling_rate <= 0xffff_ffff,
        ;
    }
    Ratio { numerator: (count as u128) * (sampling_rate as u128), denominator: steps as u64 }
}

} // verus!
