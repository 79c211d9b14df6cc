//! Properties that relate several operations of the library.

use crate::error::BiofeedbackError;
use crate::numeric::{Mean, Ratio, Variance};
use crate::processor::{
    compute_facial_metrics_from_data, compute_hrv_metrics, compute_respiratory_rate, hrv_outcome,
    resp_rate_outcome, BiofeedbackProcessor, FacialSummary, HrvMetrics, RESPIRATORY_HIGH_FREQ,
    RESPIRATORY_LOW_FREQ,
};
use crate::signal::{
    bandpass, half_width, is_peak, lemma_gap_sum_telescopes, lemma_peaks_before,
    lemma_window_mean, moving_average, peaks, peaks_before, window_end, window_start,
};
use crate::stats::{
    count_steps_over, is_variance_of, lemma_count_steps_over_bounds,
    lemma_scaled_sq_dev_nonnegative, range_sum, shifted_sq_sum, step, sum, sum_sq_steps,
    NN50_THRESHOLD,
};
use vstd::arithmetic::div_mod::lemma_fundamental_div_mod_converse;
use vstd::prelude::*;

verus! {

proof fn lemma_constant_range_sum(s: Seq<i32>, k: int)
    requires
        0 <= k <= s.len(),
        forall|i: int| 0 <= i < s.len() ==> #[trigger] s[i] == s[0],
    ensures
        range_sum(s, 0, k) == k * s[0],
    decreases k,
{
    if k > 0 {
        lemma_constant_range_sum(s, k - 1);
        assert(k * s[0] == (k - 1) * s[0] + s[0]) by (nonlinear_arith);
    }
}

proof fn lemma_constant_shifted_sq_sum(s: Seq<i32>, k: int)
    requires
        0 <= k <= s.len(),
        forall|i: int| 0 <= i < s.len() ==> #[trigger] s[i] == s[0],
    ensures
        shifted_sq_sum(s, s[0] as int, k) == 0,
    decreases k,
{
    if k > 0 {
        lemma_constant_shifted_sq_sum(s, k - 1);
        let distance = s[k - 1] - s[0];
        assert(distance == 0);
        assert(distance * distance == 0);
    }
}

/// The variance of samples that are all equal is exactly zero, and so is
/// their standard deviation: both parts that make up its value are zero.
pub proof fn lemma_variance_of_constant(s: Seq<i32>, v: Variance)
    requires
        s.len() > 0,
        forall|i: int| 0 <= i < s.len() ==> #[trigger] s[i] == s[0],
        is_variance_of(v, s),
    ensures
        v.squares == 0,
        v.rest == 0,
        v.scaled() == 0,
{
    let n = s.len() as int;
    lemma_constant_range_sum(s, n);
    assert(sum(s) == s[0] * n + 0) by (nonlinear_arith)
        requires
            sum(s) == n * s[0],
    ;
    lemma_fundamental_div_mod_converse(sum(s), n, s[0] as int, 0);
    lemma_constant_shifted_sq_sum(s, n);
    assert(v.count * 0 - 0 * 0 == 0) by (nonlinear_arith);
}

/// A variance is not negative.
pub proof fn lemma_variance_not_negative(s: Seq<i32>, v: Variance)
    requires
        is_variance_of(v, s),
    ensures
        v.scaled() >= 0,
{
    let n = s.len() as int;
    lemma_scaled_sq_dev_nonnegative(s, n, sum(s), n);
    if n > 0 {
        assert(v.scaled() >= 0) by (nonlinear_arith)
            requires
                n * v.scaled() >= 0,
                n > 0,
        ;
    } else {
        assert(0 * v.squares - 0 * 0 == 0) by (nonlinear_arith);
    }
}

/// Each step beyond a threshold adds more than the square of the threshold
/// to the sum of the squared steps.
pub proof fn lemma_large_steps_raise_squares(s: Seq<i32>, threshold: int, k: int)
    requires
        0 <= threshold,
        0 <= k,
    ensures
        sum_sq_steps(s, k) >= count_steps_over(s, threshold, k) * ((threshold + 1) * (threshold
            + 1)),
    decreases k,
{
    let bar = (threshold + 1) * (threshold + 1);
    if k > 0 {
        lemma_large_steps_raise_squares(s, threshold, k - 1);
        let d = step(s, k - 1);
        let before = count_steps_over(s, threshold, k - 1);
        assert(d * d >= 0) by (nonlinear_arith);
        if d > threshold || -d > threshold {
            assert(d * d >= bar) by (nonlinear_arith)
                requires
                    d >= threshold + 1 || -d >= threshold + 1,
                    threshold >= 0,
                    bar == (threshold + 1) * (threshold + 1),
            ;
            assert((before + 1) * bar == before * bar + bar) by (nonlinear_arith);
        }
    } else {
        assert(0 * bar == 0) by (nonlinear_arith);
    }
}

/// Where pNN50 is above zero, the sum of the squared steps is above the
/// square of 50 ms, so RMSSD is above 50 ms over the root of the number of
/// steps; where pNN50 is a hundred percent, the mean square is above the
/// square of 50 ms, so RMSSD is above 50 ms.
pub proof fn lemma_pnn50_bounds_rmssd(rr: Seq<i32>, metrics: HrvMetrics)
    requires
        rr.len() >= 2,
        hrv_outcome(rr, Ok(metrics)),
    ensures
        metrics.pnn50.denominator == metrics.rmssd_squared.denominator == rr.len() - 1,
        metrics.pnn50.numerator <= 100 * metrics.pnn50.denominator,
        metrics.pnn50.numerator > 0 ==> metrics.rmssd_squared.numerator > NN50_THRESHOLD
            * NN50_THRESHOLD,
        metrics.pnn50.numerator == 100 * metrics.pnn50.denominator
            ==> metrics.rmssd_squared.numerator > metrics.rmssd_squared.denominator * (
        NN50_THRESHOLD * NN50_THRESHOLD),
{
    let steps = rr.len() - 1;
    let threshold = NN50_THRESHOLD as int;
    let count = count_steps_over(rr, threshold, steps);
    let bar = (threshold + 1) * (threshold + 1);
    lemma_large_steps_raise_squares(rr, threshold, steps);
    lemma_count_steps_over_bounds(rr, threshold, steps);
    assert(bar > threshold * threshold) by (nonlinear_arith)
        requires
            bar == (threshold + 1) * (threshold + 1),
            threshold >= 0,
    ;
    if count > 0 {
        assert(count * bar >= bar) by (nonlinear_arith)
            requires
                count >= 1,
                bar >= 0,
        ;
    }
    if count == steps {
        assert(steps * bar > steps * (threshold * threshold)) by (nonlinear_arith)
            requires
                steps >= 1,
                bar > threshold * threshold,
        ;
    }
}

/// A respiratory rate that was estimated comes from peaks that are interior
/// samples, no two of them neighbours. So the peaks span at least two
/// samples and at most all but three, the rate is at most thirty times the
/// sampling rate and at least sixty times the sampling rate over the number
/// of samples less three, and it is above zero where the sampling rate is.
pub proof fn lemma_breath_rate_bounds(signal: Seq<i32>, sampling_rate: u32, rate: Ratio)
    requires
        signal.len() <= usize::MAX,
        resp_rate_outcome(signal, sampling_rate, Ok(rate)),
    ensures
        2 <= rate.denominator <= signal.len() - 3,
        rate.numerator <= 30 * sampling_rate * rate.denominator,
        rate.numerator * (signal.len() - 3) >= 60 * sampling_rate * rate.denominator,
        sampling_rate > 0 ==> rate.numerator > 0,
{
    let filtered = bandpass(
        signal,
        sampling_rate as int,
        RESPIRATORY_LOW_FREQ as int,
        RESPIRATORY_HIGH_FREQ as int,
    );
    let found = peaks(filtered);
    let gaps = found.len() - 1;
    let span = found[gaps] - found[0];
    let len = signal.len() as int;
    let full = 60 * sampling_rate;
    lemma_peaks_before(filtered, filtered.len() as int);
    lemma_gap_sum_telescopes(found, gaps);
    assert(is_peak(filtered, found[0] as int));
    assert(is_peak(filtered, found[gaps] as int));
    assert(found[0] + 2 * (gaps - 0) <= found[gaps]);
    assert(60 * sampling_rate * gaps == full * gaps);
    assert(2 * (full * gaps) <= full * span) by (nonlinear_arith)
        requires
            2 * gaps <= span,
            full >= 0,
    ;
    assert(30 * sampling_rate * span == (full * span) / 2) by (nonlinear_arith)
        requires
            full == 60 * sampling_rate,
    ;
    assert((full * gaps) * (len - 3) >= full * span) by (nonlinear_arith)
        requires
            gaps >= 1,
            0 <= span <= len - 3,
            full >= 0,
    ;
    assert(60 * sampling_rate * span == full * span);
    if sampling_rate > 0 {
        assert(full * gaps > 0) by (nonlinear_arith)
            requires
                full > 0,
                gaps >= 1,
        ;
    }
}

proof fn lemma_doubled_range_sum(s: Seq<i32>, t: Seq<i32>, lo: int, hi: int)
    requires
        0 <= lo <= hi <= s.len() == t.len(),
        forall|i: int| 0 <= i < s.len() ==> #[trigger] t[i] == 2 * s[i],
    ensures
        range_sum(t, lo, hi) == 2 * range_sum(s, lo, hi),
    decreases hi - lo,
{
    if lo < hi {
        lemma_doubled_range_sum(s, t, lo, hi - 1);
        assert(t[hi - 1] == 2 * s[hi - 1]);
    }
}

/// Whether `g` is the signal `f` with every mean doubled.
pub open spec fn is_doubled(f: Seq<Mean>, g: Seq<Mean>) -> bool {
    &&& g.len() == f.len()
    &&& forall|i: int|
        0 <= i < f.len() ==> (#[trigger] g[i]).total == 2 * f[i].total && g[i].count == f[i].count
}

proof fn lemma_doubled_order(x: Mean, y: Mean, x2: Mean, y2: Mean)
    requires
        x2.total == 2 * x.total,
        x2.count == x.count,
        y2.total == 2 * y.total,
        y2.count == y.count,
    ensures
        x2.exceeds(y2) == x.exceeds(y),
        x2.twice_exceeds(y2) == x.twice_exceeds(y),
{
    let (a, b, c, d) = (x.total as int, x.count as int, y.total as int, y.count as int);
    assert((2 * a) * d == 2 * (a * d)) by (nonlinear_arith);
    assert((2 * c) * b == 2 * (c * b)) by (nonlinear_arith);
    assert(2 * (2 * a) * d == 2 * (2 * a * d)) by (nonlinear_arith);
}

proof fn lemma_doubled_peak(f: Seq<Mean>, g: Seq<Mean>, i: int)
    requires
        is_doubled(f, g),
    ensures
        is_peak(g, i) == is_peak(f, i),
{
    if 0 < i < f.len() - 1 {
        lemma_doubled_order(f[i], f[i - 1], g[i], g[i - 1]);
        lemma_doubled_order(f[i], f[i + 1], g[i], g[i + 1]);
        assert forall|j: int| 0 <= j < f.len() implies g[i].twice_exceeds(#[trigger] g[j])
            == f[i].twice_exceeds(f[j]) by {
            lemma_doubled_order(f[i], f[j], g[i], g[j]);
        }
        if f[i].total > 0 && (forall|j: int|
            0 <= j < f.len() ==> f[i].twice_exceeds(#[trigger] f[j])) {
            assert forall|j: int| 0 <= j < g.len() implies g[i].twice_exceeds(#[trigger] g[j]) by {
                assert(f[i].twice_exceeds(f[j]));
            }
        }
        if g[i].total > 0 && (forall|j: int|
            0 <= j < g.len() ==> g[i].twice_exceeds(#[trigger] g[j])) {
            assert forall|j: int| 0 <= j < f.len() implies f[i].twice_exceeds(#[trigger] f[j]) by {
                assert(g[i].twice_exceeds(g[j]));
            }
        }
    }
}

/// A signal and the same signal with every mean doubled have the same peaks.
pub proof fn lemma_doubled_peaks(f: Seq<Mean>, g: Seq<Mean>, k: int)
    requires
        is_doubled(f, g),
    ensures
        peaks_before(g, k) == peaks_before(f, k),
    decreases k,
{
    if k > 0 {
        lemma_doubled_peaks(f, g, k - 1);
        lemma_doubled_peak(f, g, k - 1);
    }
}

/// Doubling every sample of a waveform keeps the outcome of the
/// respiratory-rate estimate: the peaks are found relative to the maximum.
pub proof fn lemma_doubling_keeps_resp_rate(
    s: Seq<i32>,
    t: Seq<i32>,
    sampling_rate: u32,
    outcome: Result<Ratio, BiofeedbackError>,
)
    requires
        s.len() == t.len() <= usize::MAX,
        forall|i: int| 0 <= i < s.len() ==> #[trigger] t[i] == 2 * s[i],
    ensures
        resp_rate_outcome(t, sampling_rate, outcome) == resp_rate_outcome(
            s,
            sampling_rate,
            outcome,
        ),
{
    let w = half_width(
        sampling_rate as int,
        RESPIRATORY_LOW_FREQ as int,
        RESPIRATORY_HIGH_FREQ as int,
        s.len() as int,
    );
    let f = moving_average(s, w);
    let g = moving_average(t, w);
    assert forall|i: int| 0 <= i < f.len() implies (#[trigger] g[i]).total == 2 * f[i].total
        && g[i].count == f[i].count by {
        lemma_window_mean(s, w, i);
        lemma_window_mean(t, w, i);
        lemma_doubled_range_sum(
            s,
            t,
            window_start(i, w),
            window_end(i, w, s.len() as int),
        );
    }
    lemma_doubled_peaks(f, g, f.len() as int);
}

/// Two HRV computations on a context that was not changed in between give
/// the same outcome.
pub proof fn lemma_compute_hrv_repeats(
    processor: &BiofeedbackProcessor,
    first: Result<HrvMetrics, BiofeedbackError>,
    second: Result<HrvMetrics, BiofeedbackError>,
)
    requires
        call_ensures(BiofeedbackProcessor::compute_hrv, (processor,), first),
        call_ensures(BiofeedbackProcessor::compute_hrv, (processor,), second),
    ensures
        first == second,
{
}

/// Two facial computations on a context that was not changed in between give
/// the same outcome.
pub proof fn lemma_compute_facial_metrics_repeats(
    processor: &BiofeedbackProcessor,
    first: Result<FacialSummary, BiofeedbackError>,
    second: Result<FacialSummary, BiofeedbackError>,
)
    requires
        call_ensures(BiofeedbackProcessor::compute_facial_metrics, (processor,), first),
        call_ensures(BiofeedbackProcessor::compute_facial_metrics, (processor,), second),
    ensures
        first == second,
{
}

/// Two respiratory-rate estimates of one waveform in one context give the
/// same outcome.
pub proof fn lemma_compute_resp_rate_repeats(
    processor: &BiofeedbackProcessor,
    signal: &[i32],
    first: Result<Ratio, BiofeedbackError>,
    second: Result<Ratio, BiofeedbackError>,
)
    requires
        call_ensures(BiofeedbackProcessor::compute_resp_rate, (processor, signal), first),
        call_ensures(BiofeedbackProcessor::compute_resp_rate, (processor, signal), second),
    ensures
        first == second,
{
}

/// The stateless HRV computation is a function of the intervals alone.
pub proof fn lemma_compute_hrv_metrics_repeats(
    rr_intervals: &[i32],
    first: Result<HrvMetrics, BiofeedbackError>,
    second: Result<HrvMetrics, BiofeedbackError>,
)
    requires
        call_ensures(compute_hrv_metrics, (rr_intervals,), first),
        call_ensures(compute_hrv_metrics, (rr_intervals,), second),
    ensures
        first == second,
{
}

/// The stateless respiratory-rate estimate is a function of the waveform and
/// the sampling rate alone.
pub proof fn lemma_compute_respiratory_rate_repeats(
    signal: &[i32],
    sampling_rate: u32,
    first: Result<Ratio, BiofeedbackError>,
    second: Result<Ratio, BiofeedbackError>,
)
    requires
        call_ensures(compute_respiratory_rate, (signal, sampling_rate), first),
        call_ensures(compute_respiratory_rate, (signal, sampling_rate), second),
    ensures
        first == second,
{
}

/// The stateless facial computation is a function of the four channels alone.
pub proof fn lemma_compute_facial_metrics_from_data_repeats(
    muscle_tension: &[i32],
    eye_movement: &[i32],
    blink_rate: &[i32],
    facial_symmetry: &[i32],
    first: Result<FacialSummary, BiofeedbackError>,
    second: Result<FacialSummary, BiofeedbackError>,
)
    requires
        call_ensures(
            compute_facial_metrics_from_data,
            (muscle_tension, eye_movement, blink_rate, facial_symmetry),
            first,
        ),
        call_ensures(
            compute_facial_metrics_from_data,
            (muscle_tension, eye_movement, blink_rate, facial_symmetry),
            second,
        ),
    ensures
        first == second,
{
}

/// A context that was just made refuses the facial computation: no facial
/// sample has been recorded.
pub proof fn lemma_fresh_context_has_no_facial_data(
    sampling_rate: u32,
    processor: BiofeedbackProcessor,
    outcome: Result<FacialSummary, BiofeedbackError>,
)
    requires
        call_ensures(BiofeedbackProcessor::new, (sampling_rate,), processor),
        call_ensures(BiofeedbackProcessor::compute_facial_metrics, (&processor,), outcome),
    ensures
        outcome == Err::<FacialSummary, BiofeedbackError>(BiofeedbackError::NoFacialData),
{
}

} // verus!
