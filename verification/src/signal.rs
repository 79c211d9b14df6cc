//! Smoothing of a raw waveform and detection of its peaks.

use crate::numeric::{lemma_order_transitive, Mean, Ratio};
use crate::stats::{lemma_range_sum_bounds, range_sum, window_sum};
use vstd::prelude::*;

verus! {

/// Smallest half-width of the averaging window, in samples.
pub const MIN_HALF_WIDTH: usize = 3;

/// Half-width that a band asks for: twice the sampling rate over the sum of
/// the band's edges, rounded to the nearest integer (a half rounds up).
pub open spec fn requested_half_width(sampling_rate: int, low_freq: int, high_freq: int) -> int
    recommends
        low_freq + high_freq > 0,
{
    (4 * sampling_rate + (low_freq + high_freq)) / (2 * (low_freq + high_freq))
}

/// Half-width used on a signal of `len` samples: what the band asks for, but
/// no more than a quarter of the signal and no less than `MIN_HALF_WIDTH`. A
/// band whose edges sum to zero asks for the widest window.
pub open spec fn half_width(sampling_rate: int, low_freq: int, high_freq: int, len: int) -> int {
    let widest = len / 4;
    let wanted = if low_freq + high_freq == 0 {
        widest
    } else if requested_half_width(sampling_rate, low_freq, high_freq) < widest {
        requested_half_width(sampling_rate, low_freq, high_freq)
    } else {
        widest
    };
    if wanted < MIN_HALF_WIDTH {
        MIN_HALF_WIDTH as int
    } else {
        wanted
    }
}

/// First sample of the window around `i`.
pub open spec fn window_start(i: int, w: int) -> int {
    if i >= w {
        i - w
    } else {
        0
    }
}

/// One past the last sample of the window around `i`.
pub open spec fn window_end(i: int, w: int, len: int) -> int {
    if i + w + 1 < len {
        i + w + 1
    } else {
        len
    }
}

/// Whether `m` is the mean of the window around `i`: the sum of the samples
/// in it over their number.
pub open spec fn is_window_mean(m: Mean, s: Seq<i32>, w: int, i: int) -> bool {
    let start = window_start(i, w);
    let end = window_end(i, w, s.len() as int);
    m.total == range_sum(s, start, end) && m.count == end - start
}

/// The mean of the window around `i`.
pub open spec fn window_mean(s: Seq<i32>, w: int, i: int) -> Mean {
    let start = window_start(i, w);
    let end = window_end(i, w, s.len() as int);
    Mean { total: range_sum(s, start, end) as i128, count: (end - start) as u64 }
}

/// The signal smoothed by a symmetric moving average of half-width `w`; the
/// window is cut off at both ends of the signal.
pub open spec fn moving_average(s: Seq<i32>, w: int) -> Seq<Mean> {
    Seq::new(s.len(), |i: int| window_mean(s, w, i))
}

/// The signal smoothed for the band from `low_freq` to `high_freq`.
pub open spec fn bandpass(
    s: Seq<i32>,
    sampling_rate: int,
    low_freq: int,
    high_freq: int,
) -> Seq<Mean> {
    moving_average(s, half_width(sampling_rate, low_freq, high_freq, s.len() as int))
}

/// The mean of a window is that of at least one sample, and its parts are
/// the sum and the number of the samples in the window.
pub proof fn lemma_window_mean(s: Seq<i32>, w: int, i: int)
    requires
        0 <= i < s.len() <= usize::MAX,
        w >= 0,
    ensures
        window_mean(s, w, i).is_sample_mean(),
        is_window_mean(window_mean(s, w, i), s, w, i),
{
    let start = window_start(i, w);
    let end = window_end(i, w, s.len() as int);
    lemma_range_sum_bounds(s, start, end);
    assert((end - start) * i32::MAX <= usize::MAX * i32::MAX) by (nonlinear_arith)
        requires
            0 <= end - start <= usize::MAX,
    ;
    assert((end - start) * i32::MIN >= usize::MAX * i32::MIN) by (nonlinear_arith)
        requires
            0 <= end - start <= usize::MAX,
    ;
    assert(i32::MIN * (end - start) == (end - start) * i32::MIN) by (nonlinear_arith);
    assert(i32::MAX * (end - start) == (end - start) * i32::MAX) by (nonlinear_arith);
}

/// Smooths `signal` with a moving average whose half-width follows from the
/// sampling rate and the band; the result has one mean for each sample of
/// the input.
pub fn bandpass_filter(
    signal: &[i32],
    sampling_rate: u32,
    low_freq: u32,
    high_freq: u32,
) -> (filtered: Vec<Mean>)
    ensures
        filtered@ == bandpass(signal@, sampling_rate as int, low_freq as int, high_freq as int),
        filtered@.len() == signal@.len(),
        forall|i: int|
            0 <= i < signal@.len() ==> (#[trigger] filtered@[i]).is_sample_mean() && is_window_mean(
                filtered@[i],
                signal@,
                half_width(
                    sampling_rate as int,
                    low_freq as int,
                    high_freq as int,
                    signal@.len() as int,
                ),
                i,
            ),
{
    let len: usize = signal.len();
    let widest: usize = len / 4;
    let band: u64 = low_freq as u64 + high_freq as u64;
    let mut wanted: usize = widest;
    if band != 0 {
        let requested: u64 = (4 * (sampling_rate as u64) + band) / (2 * band);
        if requested < widest as u64 {
            wanted = requested as usize;
        }
    }
    let w: usize = if wanted < MIN_HALF_WIDTH {
        MIN_HALF_WIDTH
    } else {
        wanted
    };
    assert(w == half_width(sampling_rate as int, low_freq as int, high_freq as int, len as int));
    let mut filtered: Vec<Mean> = Vec::with_capacity(len);
    let mut i: usize = 0;
    while i < len
        invariant
            i <= len == signal.len(),
            MIN_HALF_WIDTH <= w < usize::MAX,
            filtered@.len() == i,
            forall|j: int| 0 <= j < i ==> filtered@[j] == window_mean(signal@, w as int, j),
        decreases len - i,
    {
        let start: usize = if i >= w {
            i - w
        } else {
            0
        };
        let end: usize = if len - i > w + 1 {
            i + w + 1
        } else {
            len
        };
        let total: i128 = window_sum(signal, start, end);
        filtered.push(Mean { total, count: (end - start) as u64 });
        i = i + 1;
    }
    proof {
        assert(filtered@ =~= moving_average(signal@, w as int));
        assert forall|i: int| 0 <= i < signal@.len() implies (#[trigger] filtered@[i]).is_sample_mean()
            && is_window_mean(filtered@[i], signal@, w as int, i) by {
            lemma_window_mean(signal@, w as int, i);
        }
    }
    filtered
}

/// Whether sample `i` is above half of the signal's maximum, the maximum
/// taken as zero where no sample is positive: twice the sample is above zero
/// and above every sample.
pub open spec fn above_half_of_maximum(s: Seq<Mean>, i: int) -> bool {
    &&& s[i].total > 0
    &&& forall|j: int| 0 <= j < s.len() ==> s[i].twice_exceeds(#[trigger] s[j])
}

/// Whether sample `i` is a peak: an interior sample above half of the
/// signal's maximum and strictly above both of its neighbours.
pub open spec fn is_peak(s: Seq<Mean>, i: int) -> bool {
    &&& 0 < i < s.len() - 1
    &&& above_half_of_maximum(s, i)
    &&& s[i].exceeds(s[i - 1])
    &&& s[i].exceeds(s[i + 1])
}

/// The peaks among the first `k` positions, in ascending order.
pub open spec fn peaks_before(s: Seq<Mean>, k: int) -> Seq<usize>
    decreases k,
{
    if k <= 0 {
        Seq::empty()
    } else if is_peak(s, k - 1) {
        peaks_before(s, k - 1).push((k - 1) as usize)
    } else {
        peaks_before(s, k - 1)
    }
}

/// All peaks of the signal, in ascending order.
pub open spec fn peaks(s: Seq<Mean>) -> Seq<usize> {
    peaks_before(s, s.len() as int)
}

/// Whether every sample of the signal is the mean of at least one sample.
pub open spec fn is_filtered(s: Seq<Mean>) -> bool {
    forall|i: int| 0 <= i < s.len() ==> (#[trigger] s[i]).is_sample_mean()
}

/// The list of peaks holds exactly the positions that are peaks, each once
/// and in ascending order. Peaks are interior positions, and no two of them
/// are neighbours.
pub proof fn lemma_peaks_before(s: Seq<Mean>, k: int)
    requires
        0 <= k <= s.len() <= usize::MAX,
    ensures
        forall|j: int|
            0 <= j < peaks_before(s, k).len() ==> #[trigger] peaks_before(s, k)[j] < k
                && is_peak(s, peaks_before(s, k)[j] as int),
        forall|a: int, b: int|
            0 <= a < b < peaks_before(s, k).len() ==> peaks_before(s, k)[a] + 2 * (b - a)
                <= peaks_before(s, k)[b],
        forall|i: int|
            0 <= i < k && is_peak(s, i) ==> peaks_before(s, k).contains(i as usize),
    decreases k,
{
    if k > 0 {
        lemma_peaks_before(s, k - 1);
        let earlier = peaks_before(s, k - 1);
        let all = peaks_before(s, k);
        if is_peak(s, k - 1) {
            assert(all[all.len() - 1] == (k - 1) as usize);
            assert forall|i: int| 0 <= i < k && is_peak(s, i) implies all.contains(i as usize) by {
                if i < k - 1 {
                    let j = choose|j: int| 0 <= j < earlier.len() && earlier[j] == i as usize;
                    assert(all[j] == i as usize);
                } else {
                    assert(all[all.len() - 1] == i as usize);
                }
            }
            assert forall|a: int, b: int| 0 <= a < b < all.len() implies all[a] + 2 * (b - a)
                <= all[b] by {
                if b == all.len() - 1 {
                    // The peak before the last is not its neighbour: a peak
                    // is above the sample that follows it.
                    let last = earlier[earlier.len() - 1] as int;
                    assert(is_peak(s, last));
                    if last == k - 2 {
                        assert(s[last].exceeds(s[k - 1]));
                        assert(s[k - 1].exceeds(s[last]));
                        assert(false);
                    }
                    if a < earlier.len() - 1 {
                        assert(earlier[a] + 2 * (earlier.len() - 1 - a) <= earlier[earlier.len()
                            - 1]);
                    }
                }
            }
        }
    }
}

/// Finds the peaks of a smoothed signal: the interior samples that exceed
/// half of the signal's maximum (taken as zero if no sample is positive) and
/// both of their neighbours. A plateau holds no peak.
pub fn find_peaks(signal: &[Mean]) -> (found: Vec<usize>)
    requires
        is_filtered(signal@),
    ensures
        found@ == peaks(signal@),
{
    let len: usize = signal.len();
    let mut found: Vec<usize> = Vec::new();
    if len == 0 {
        return found;
    }
    let mut top: usize = 0;
    let mut k: usize = 1;
    while k < len
        invariant
            1 <= k <= len == signal.len(),
            is_filtered(signal@),
            top < k,
            forall|j: int| 0 <= j < k ==> signal@[top as int].at_least(#[trigger] signal@[j]),
        decreases len - k,
    {
        if signal[k].is_above(&signal[top]) {
            proof {
                assert forall|j: int| 0 <= j < k + 1 implies signal@[k as int].at_least(
                    #[trigger] signal@[j],
                ) by {
                    if j < k {
                        lemma_order_transitive(signal@[k as int], signal@[top as int], signal@[j]);
                    }
                }
            }
            top = k;
        }
        k = k + 1;
    }
    let mut i: usize = 0;
    while i < len
        invariant
            i <= len == signal.len(),
            is_filtered(signal@),
            top < len,
            forall|j: int| 0 <= j < len ==> signal@[top as int].at_least(#[trigger] signal@[j]),
            found@ == peaks_before(signal@, i as int),
        decreases len - i,
    {
        if 0 < i && i < len - 1 && signal[i].total > 0 && signal[i].twice_is_above(&signal[top])
            && signal[i].is_above(&signal[i - 1]) && signal[i].is_above(&signal[i + 1])
        {
            proof {
                let this = signal@[i as int];
                assert forall|j: int| 0 <= j < len implies this.twice_exceeds(
                    #[trigger] signal@[j],
                ) by {
                    lemma_twice_above_all(this, signal@[top as int], signal@[j]);
                }
            }
            found.push(i);
        }
        i = i + 1;
    }
    found
}

/// A mean whose double is above the largest of some means has its double
/// above each of them.
proof fn lemma_twice_above_all(this: Mean, top: Mean, other: Mean)
    requires
        this.count > 0,
        top.count > 0,
        other.count > 0,
        this.twice_exceeds(top),
        top.at_least(other),
    ensures
        this.twice_exceeds(other),
{
    let (xt, xc) = (2 * this.total, this.count as int);
    let (yt, yc) = (top.total as int, top.count as int);
    let (zt, zc) = (other.total as int, other.count as int);
    assert((xt * yc) * zc > (yt * xc) * zc) by (nonlinear_arith)
        requires
            xt * yc > yt * xc,
            zc > 0,
    ;
    assert((yt * zc) * xc >= (zt * yc) * xc) by (nonlinear_arith)
        requires
            yt * zc >= zt * yc,
            xc > 0,
    ;
    assert((xt * zc) * yc > (zt * xc) * yc) by (nonlinear_arith)
        requires
            (xt * yc) * zc > (yt * xc) * zc,
            (yt * zc) * xc >= (zt * yc) * xc,
    ;
    assert(xt * zc > zt * xc) by (nonlinear_arith)
        requires
            (xt * zc) * yc > (zt * xc) * yc,
            yc > 0,
    ;
}

/// Sum of the first `k` gaps between successive peaks, in samples.
pub open spec fn gap_sum(found: Seq<usize>, k: int) -> int
    decreases k,
{
    if k <= 0 {
        0
    } else {
        gap_sum(found, k - 1) + (found[k] - found[k - 1])
    }
}

/// Whether `r` is the respiratory rate that the peaks `found` give, in
/// thousandths of a breath per minute: sixty over the mean gap between
/// successive peaks in seconds. The mean gap in samples is the sum of the
/// gaps over their number, and one sample lasts one over the sampling rate,
/// so the rate is sixty times the sampling rate times the number of gaps,
/// over their sum.
pub open spec fn is_breath_rate_of(r: Ratio, found: Seq<usize>, sampling_rate: int) -> bool {
    r.numerator == 60 * sampling_rate * (found.len() - 1) && r.denominator == gap_sum(
        found,
        found.len() - 1,
    )
}

/// The gaps between successive peaks add up to the distance from the first
/// peak to the last.
pub proof fn lemma_gap_sum_telescopes(found: Seq<usize>, k: int)
    requires
        0 <= k < found.len(),
    ensures
        gap_sum(found, k) == found[k] - found[0],
    decreases k,
{
    if k > 0 {
        lemma_gap_sum_telescopes(found, k - 1);
    }
}

/// Whether the positions are in strictly ascending order.
pub open spec fn ascending(found: Seq<usize>) -> bool {
    forall|a: int, b: int| 0 <= a < b < found.len() ==> found[a] < found[b]
}

/// Respiratory rate from the positions of at least two peaks.
pub fn rate_from_peaks(found: &[usize], sampling_rate: u32) -> (rate: Ratio)
    requires
        found.len() >= 2,
        ascending(found@),
    ensures
        is_breath_rate_of(rate, found@, sampling_rate as int),
        rate.denominator > 0,
{
    let gaps: usize = found.len() - 1;
    let span: usize = found[gaps] - found[0];
    proof {
        lemma_gap_sum_telescopes(found@, gaps as int);
        assert(60 * sampling_rate * gaps <= 60 * 0xffff_ffff * 0xffff_ffff_ffff_ffff)
            by (nonlinear_arith)
            requires
                0 <= sampling_rate <= 0xffff_ffff,
                0 <= gaps <= 0xffff_ffff_ffff_ffff,
        ;
    }
    Ratio { numerator: 60 * (sampling_rate as u128) * (gaps as u128), denominator: span as u64 }
}

} // verus!
