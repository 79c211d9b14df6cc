//! The processing context: stored RR intervals and facial samples, and the
//! metrics computed from them.

use crate::channel::{
    lemma_pushed_all_keeps_newest, newest, pushed, pushed_all, FacialChannels, FacialMetrics,
    CHANNEL_CAPACITY,
};
use crate::error::BiofeedbackError;
use crate::numeric::{Mean, Ratio, Variance};
use crate::signal::{
    bandpass, bandpass_filter, find_peaks, is_breath_rate_of, lemma_peaks_before, peaks,
    rate_from_peaks,
};
use crate::stats::{
    compute_eye_movement_frequency, compute_mean, compute_pnn50, compute_rmssd, compute_sdnn,
    compute_variability, is_mean_of, is_mean_square_step_of, is_movement_frequency_of,
    is_pnn50_of, is_variance_of,
};
use vstd::prelude::*;

verus! {

/// Fewest samples of a raw waveform from which a respiratory rate is
/// estimated.
pub const MIN_SIGNAL_LENGTH: usize = 100;

/// Lower edge of the respiratory band, in thousandths of a hertz.
pub const RESPIRATORY_LOW_FREQ: u32 = 100;

/// Upper edge of the respiratory band, in thousandths of a hertz.
pub const RESPIRATORY_HIGH_FREQ: u32 = 500;

/// Sampling rate of the contexts that the stateless functions set up for
/// themselves, in thousandths of a hertz.
pub const DEFAULT_SAMPLING_RATE: u32 = 30_000;

/// Time-domain heart-rate variability, exactly. RMSSD is the square root of
/// `rmssd_squared` and SDNN the square root of `sdnn_squared`, both in
/// thousandths of a millisecond; `pnn50` is in percent.
#[derive(Clone, Copy, Debug, PartialEq, Eq, Structural)]
pub struct HrvMetrics {
    pub rmssd_squared: Ratio,
    pub sdnn_squared: Variance,
    pub pnn50: Ratio,
}

/// Running statistics of the facial channels, exactly and in thousandths.
/// The variability of the muscle tension is the square root of
/// `tension_variability_squared`.
#[derive(Clone, Copy, Debug, PartialEq, Eq, Structural)]
pub struct FacialSummary {
    pub mean_tension: Mean,
    pub tension_variability_squared: Variance,
    pub mean_eye_movement: Mean,
    pub eye_movement_frequency: Ratio,
    pub mean_blink_rate: Mean,
    pub mean_symmetry: Mean,
}

/// Whether `outcome` is what the HRV computation owes for the intervals
/// `rr`: a refusal for fewer than two of them, the three metrics otherwise.
pub open spec fn hrv_outcome(rr: Seq<i32>, outcome: Result<HrvMetrics, BiofeedbackError>) -> bool {
    if rr.len() < 2 {
        outcome == Err::<HrvMetrics, BiofeedbackError>(BiofeedbackError::InsufficientData)
    } else {
        outcome matches Ok(metrics) && is_mean_square_step_of(metrics.rmssd_squared, rr)
            && is_variance_of(metrics.sdnn_squared, rr) && is_pnn50_of(metrics.pnn50, rr)
    }
}

/// Whether `outcome` is what the facial computation owes for the channels
/// `facial`: a refusal without muscle-tension samples, the six statistics
/// otherwise.
pub open spec fn facial_outcome(
    facial: FacialChannels,
    sampling_rate: u32,
    outcome: Result<FacialSummary, BiofeedbackError>,
) -> bool {
    if facial.muscle_tension.len() == 0 {
        outcome == Err::<FacialSummary, BiofeedbackError>(BiofeedbackError::NoFacialData)
    } else {
        outcome matches Ok(summary) && is_mean_of(summary.mean_tension, facial.muscle_tension)
            && is_variance_of(summary.tension_variability_squared, facial.muscle_tension)
            && is_mean_of(summary.mean_eye_movement, facial.eye_movement)
            && is_movement_frequency_of(
            summary.eye_movement_frequency,
            facial.eye_movement,
            sampling_rate as int,
        ) && is_mean_of(summary.mean_blink_rate, facial.blink_rate) && is_mean_of(
            summary.mean_symmetry,
            facial.facial_symmetry,
        )
    }
}

/// Whether `outcome` is what the respiratory-rate estimate owes for the
/// waveform `signal`: a refusal for fewer than a hundred samples or fewer
/// than two peaks of the smoothed waveform, the rate from the spacing of the
/// peaks otherwise.
pub open spec fn resp_rate_outcome(
    signal: Seq<i32>,
    sampling_rate: u32,
    outcome: Result<Ratio, BiofeedbackError>,
) -> bool {
    let found = peaks(
        bandpass(
            signal,
            sampling_rate as int,
            RESPIRATORY_LOW_FREQ as int,
            RESPIRATORY_HIGH_FREQ as int,
        ),
    );
    if signal.len() < MIN_SIGNAL_LENGTH {
        outcome == Err::<Ratio, BiofeedbackError>(BiofeedbackError::SignalTooShort)
    } else if found.len() < 2 {
        outcome == Err::<Ratio, BiofeedbackError>(BiofeedbackError::InsufficientPeaks)
    } else {
        outcome matches Ok(rate) && is_breath_rate_of(rate, found, sampling_rate as int)
    }
}

/// Whether the four channels hold the same number of samples.
pub open spec fn in_step(facial: FacialChannels) -> bool {
    &&& facial.eye_movement.len() == facial.muscle_tension.len()
    &&& facial.blink_rate.len() == facial.muscle_tension.len()
    &&& facial.facial_symmetry.len() == facial.muscle_tension.len()
}

/// What a processing context holds.
pub struct ProcessorState {
    pub rr_intervals: Seq<i32>,
    pub sampling_rate: u32,
    pub facial: FacialChannels,
}

/// A processing context. It owns the RR intervals and the facial samples it
/// was given; computing a metric reads them and changes nothing.
pub struct BiofeedbackProcessor {
    rr_intervals: Vec<i32>,
    sampling_rate: u32,
    facial_metrics: FacialMetrics,
}

impl View for BiofeedbackProcessor {
    type V = ProcessorState;

    closed spec fn view(&self) -> ProcessorState {
        ProcessorState {
            rr_intervals: self.rr_intervals@,
            sampling_rate: self.sampling_rate,
            facial: self.facial_metrics@,
        }
    }
}

impl BiofeedbackProcessor {
    #[verifier::type_invariant]
    spec fn channels_in_step(&self) -> bool {
        in_step(self.facial_metrics@)
    }

    /// A context without data, for signals sampled at `sampling_rate`
    /// thousandths of a hertz.
    pub fn new(sampling_rate: u32) -> (processor: BiofeedbackProcessor)
        ensures
            processor@.rr_intervals == Seq::<i32>::empty(),
            processor@.sampling_rate == sampling_rate,
            processor@.facial.muscle_tension == Seq::<i32>::empty(),
            processor@.facial.eye_movement == Seq::<i32>::empty(),
            processor@.facial.blink_rate == Seq::<i32>::empty(),
            processor@.facial.facial_symmetry == Seq::<i32>::empty(),
    {
        BiofeedbackProcessor {
            rr_intervals: Vec::new(),
            sampling_rate,
            facial_metrics: FacialMetrics::new(),
        }
    }

    /// The RR intervals stored, oldest first.
    pub fn rr_intervals(&self) -> (stored: &[i32])
        ensures
            stored@ == self@.rr_intervals,
    {
        self.rr_intervals.as_slice()
    }

    /// The sampling rate the context was made for.
    pub fn sampling_rate(&self) -> (rate: u32)
        ensures
            rate == self@.sampling_rate,
    {
        self.sampling_rate
    }

    /// The facial channels, which hold the same number of samples each.
    pub fn facial_metrics(&self) -> (facial: &FacialMetrics)
        ensures
            facial@ == self@.facial,
            in_step(facial@),
    {
        proof {
            use_type_invariant(self);
        }
        &self.facial_metrics
    }

    /// Appends RR intervals, in order, to those already stored.
    pub fn add_rr_intervals(&mut self, intervals: &[i32])
        ensures
            final(self)@ == (ProcessorState {
                rr_intervals: old(self)@.rr_intervals + intervals@,
                ..old(self)@
            }),
    {
        proof {
            use_type_invariant(&*self);
        }
        // The intervals are moved out for the time they are extended.
        let mut stored: Vec<i32> = Vec::new();
        core::mem::swap(&mut self.rr_intervals, &mut stored);
        stored.extend_from_slice(intervals);
        assert(stored@ =~= old(self)@.rr_intervals + intervals@);
        self.rr_intervals = stored;
    }

    /// Forgets the stored RR intervals.
    pub fn clear_rr_intervals(&mut self)
        ensures
            final(self)@ == (ProcessorState { rr_intervals: Seq::empty(), ..old(self)@ }),
    {
        proof {
            use_type_invariant(&*self);
        }
        self.rr_intervals = Vec::new();
    }

    /// Records one sample of each facial channel.
    pub fn add_facial_data(
        &mut self,
        muscle_tension: i32,
        eye_movement: i32,
        blink_rate: i32,
        facial_symmetry: i32,
    )
        ensures
            final(self)@ == (ProcessorState {
                facial: FacialChannels {
                    muscle_tension: pushed(old(self)@.facial.muscle_tension, muscle_tension),
                    eye_movement: pushed(old(self)@.facial.eye_movement, eye_movement),
                    blink_rate: pushed(old(self)@.facial.blink_rate, blink_rate),
                    facial_symmetry: pushed(old(self)@.facial.facial_symmetry, facial_symmetry),
                },
                ..old(self)@
            }),
            in_step(old(self)@.facial),
            in_step(final(self)@.facial),
    {
        proof {
            use_type_invariant(&*self);
        }
        // The channels are moved out for the time they are out of step.
        let mut facial: FacialMetrics = FacialMetrics::new();
        core::mem::swap(&mut self.facial_metrics, &mut facial);
        facial.add_muscle_tension(muscle_tension);
        facial.add_eye_movement(eye_movement);
        facial.add_blink_rate(blink_rate);
        facial.add_facial_symmetry(facial_symmetry);
        self.facial_metrics = facial;
    }

    /// RMSSD, SDNN and pNN50 of the stored RR intervals.
    pub fn compute_hrv(&self) -> (outcome: Result<HrvMetrics, BiofeedbackError>)
        ensures
            hrv_outcome(self@.rr_intervals, outcome),
    {
        if self.rr_intervals.len() < 2 {
            return Err(BiofeedbackError::InsufficientData);
        }
        let rmssd_squared: Ratio = compute_rmssd(self.rr_intervals.as_slice());
        let sdnn_squared: Variance = compute_sdnn(self.rr_intervals.as_slice());
        let pnn50: Ratio = compute_pnn50(self.rr_intervals.as_slice());
        Ok(HrvMetrics { rmssd_squared, sdnn_squared, pnn50 })
    }

    /// Means of the four facial channels, spread of the muscle tension and
    /// rate of eye movements.
    pub fn compute_facial_metrics(&self) -> (outcome: Result<FacialSummary, BiofeedbackError>)
        ensures
            facial_outcome(self@.facial, self@.sampling_rate, outcome),
            in_step(self@.facial),
    {
        proof {
            use_type_invariant(self);
        }
        let tension: &[i32] = self.facial_metrics.muscle_tension();
        if tension.len() == 0 {
            return Err(BiofeedbackError::NoFacialData);
        }
        let eye: &[i32] = self.facial_metrics.eye_movement();
        let blink: &[i32] = self.facial_metrics.blink_rate();
        let symmetry: &[i32] = self.facial_metrics.facial_symmetry();
        let mean_tension: Mean = compute_mean(tension);
        let tension_variability_squared: Variance = compute_variability(tension);
        let mean_eye_movement: Mean = compute_mean(eye);
        let eye_movement_frequency: Ratio = compute_eye_movement_frequency(
            eye,
            self.sampling_rate,
        );
        let mean_blink_rate: Mean = compute_mean(blink);
        let mean_symmetry: Mean = compute_mean(symmetry);
        Ok(
            FacialSummary {
                mean_tension,
                tension_variability_squared,
                mean_eye_movement,
                eye_movement_frequency,
                mean_blink_rate,
                mean_symmetry,
            },
        )
    }

    /// Respiratory rate of a raw waveform, in thousandths of a breath per
    /// minute.
    pub fn compute_resp_rate(&self, signal: &[i32]) -> (outcome: Result<Ratio, BiofeedbackError>)
        ensures
            resp_rate_outcome(signal@, self@.sampling_rate, outcome),
    {
        if signal.len() < MIN_SIGNAL_LENGTH {
            return Err(BiofeedbackError::SignalTooShort);
        }
        let filtered: Vec<Mean> = bandpass_filter(
            signal,
            self.sampling_rate,
            RESPIRATORY_LOW_FREQ,
            RESPIRATORY_HIGH_FREQ,
        );
        let found: Vec<usize> = find_peaks(filtered.as_slice());
        if found.len() < 2 {
            return Err(BiofeedbackError::InsufficientPeaks);
        }
        proof {
            lemma_peaks_before(filtered@, filtered@.len() as int);
        }
        Ok(rate_from_peaks(found.as_slice(), self.sampling_rate))
    }
}

/// HRV metrics of the given RR intervals, computed in a context of its own.
pub fn compute_hrv_metrics(rr_intervals: &[i32]) -> (outcome: Result<HrvMetrics, BiofeedbackError>)
    ensures
        hrv_outcome(rr_intervals@, outcome),
{
    let mut processor: BiofeedbackProcessor = BiofeedbackProcessor::new(DEFAULT_SAMPLING_RATE);
    processor.add_rr_intervals(rr_intervals);
    assert(processor@.rr_intervals =~= rr_intervals@);
    processor.compute_hrv()
}

/// Respiratory rate of a raw waveform sampled at `sampling_rate`, computed in
/// a context of its own.
pub fn compute_respiratory_rate(
    signal: &[i32],
    sampling_rate: u32,
) -> (outcome: Result<Ratio, BiofeedbackError>)
    ensures
        resp_rate_outcome(signal@, sampling_rate, outcome),
{
    let processor: BiofeedbackProcessor = BiofeedbackProcessor::new(sampling_rate);
    processor.compute_resp_rate(signal)
}

/// Facial statistics of the given samples, computed in a context of its own.
/// Sample `i` of each channel is recorded together, for each sample of
/// muscle tension; the channels then hold the newest of what they were given.
pub fn compute_facial_metrics_from_data(
    muscle_tension: &[i32],
    eye_movement: &[i32],
    blink_rate: &[i32],
    facial_symmetry: &[i32],
) -> (outcome: Result<FacialSummary, BiofeedbackError>)
    requires
        eye_movement.len() >= muscle_tension.len(),
        blink_rate.len() >= muscle_tension.len(),
        facial_symmetry.len() >= muscle_tension.len(),
    ensures
        facial_outcome(
            FacialChannels {
                muscle_tension: newest(muscle_tension@, CHANNEL_CAPACITY as int),
                eye_movement: newest(
                    eye_movement@.take(muscle_tension.len() as int),
                    CHANNEL_CAPACITY as int,
                ),
                blink_rate: newest(
                    blink_rate@.take(muscle_tension.len() as int),
                    CHANNEL_CAPACITY as int,
                ),
                facial_symmetry: newest(
                    facial_symmetry@.take(muscle_tension.len() as int),
                    CHANNEL_CAPACITY as int,
                ),
            },
            DEFAULT_SAMPLING_RATE,
            outcome,
        ),
{
    let mut processor: BiofeedbackProcessor = BiofeedbackProcessor::new(DEFAULT_SAMPLING_RATE);
    let count: usize = muscle_tension.len();
    let ghost empty = Seq::<i32>::empty();
    let mut i: usize = 0;
    while i < count
        invariant
            i <= count == muscle_tension.len(),
            eye_movement.len() >= count,
            blink_rate.len() >= count,
            facial_symmetry.len() >= count,
            empty == Seq::<i32>::empty(),
            processor@.sampling_rate == DEFAULT_SAMPLING_RATE,
            processor@.facial.muscle_tension == pushed_all(empty, muscle_tension@.take(i as int)),
            processor@.facial.eye_movement == pushed_all(empty, eye_movement@.take(i as int)),
            processor@.facial.blink_rate == pushed_all(empty, blink_rate@.take(i as int)),
            processor@.facial.facial_symmetry == pushed_all(
                empty,
                facial_symmetry@.take(i as int),
            ),
        decreases count - i,
    {
        proof {
            assert(muscle_tension@.take(i + 1).drop_last() =~= muscle_tension@.take(i as int));
            assert(eye_movement@.take(i + 1).drop_last() =~= eye_movement@.take(i as int));
            assert(blink_rate@.take(i + 1).drop_last() =~= blink_rate@.take(i as int));
            assert(facial_symmetry@.take(i + 1).drop_last() =~= facial_symmetry@.take(i as int));
        }
        processor.add_facial_data(
            muscle_tension[i],
            eye_movement[i],
            blink_rate[i],
            facial_symmetry[i],
        );
        i = i + 1;
    }
    proof {
        assert(muscle_tension@.take(count as int) =~= muscle_tension@);
        lemma_pushed_all_keeps_newest(empty, muscle_tension@);
        lemma_pushed_all_keeps_newest(empty, eye_movement@.take(count as int));
        lemma_pushed_all_keeps_newest(empty, blink_rate@.take(count as int));
        lemma_pushed_all_keeps_newest(empty, facial_symmetry@.take(count as int));
        assert(empty + muscle_tension@ =~= muscle_tension@);
        assert(empty + eye_movement@.take(count as int) =~= eye_movement@.take(count as int));
        assert(empty + blink_rate@.take(count as int) =~= blink_rate@.take(count as int));
        assert(empty + facial_symmetry@.take(count as int) =~= facial_symmetry@.take(
            count as int,
        ));
    }
    processor.compute_facial_metrics()
}

} // verus!
