use biofeedback::numeric::floor_div_rem;
use biofeedback::signal::{bandpass_filter, find_peaks, rate_from_peaks};
use biofeedback::{compute_respiratory_rate, BiofeedbackError, BiofeedbackProcessor, Mean, Ratio};

fn to_raw(value: f64) -> i32 {
    (value * 1000.0 + 0.5).floor() as i32
}

fn sine_wave(frequency: f64, sampling_rate: f64, samples: usize) -> Vec<i32> {
    let mut signal = Vec::new();
    for i in 0..samples {
        let t = i as f64 / sampling_rate;
        signal.push(to_raw((2.0 * std::f64::consts::PI * frequency * t).sin()));
    }
    signal
}

/// Breaths per minute of a rate in thousandths.
fn per_minute(rate: Ratio) -> f64 {
    rate.numerator as f64 / rate.denominator as f64 / 1000.0
}

/// A signal whose samples are the given whole values.
fn whole(values: &[i32]) -> Vec<Mean> {
    values.iter().map(|v| Mean { total: *v as i128, count: 1 }).collect()
}

#[test]
fn test_respiratory_rate_calculation() {
    // Create a simple sinusoidal signal simulating breathing
    let mut signal = Vec::new();
    for i in 0..300 {
        let t = i as f64 / 30.0; // 30 Hz sampling rate
        signal.push(to_raw((2.0 * std::f64::consts::PI * 0.2 * t).sin())); // 0.2 Hz
    }

    let processor = BiofeedbackProcessor::new(to_raw(30.0) as u32);
    let result = processor.compute_resp_rate(&signal);

    // At 30 Hz the band asks for a half-width of 100, which a quarter of
    // the 300 samples cuts to 75: the window spans one period of the wave.
    // The smoothed signal then has its maximum at the first sample, which
    // is no candidate, and falls from there: every interior sample above
    // half of the maximum is below the sample before it.
    let filtered = bandpass_filter(&signal, 30_000, 100, 500);
    let top = filtered[0];
    assert!(filtered.iter().all(|m| !m.is_above(&top)));
    assert!((1..299)
        .all(|i| !filtered[i].twice_is_above(&top) || filtered[i - 1].is_above(&filtered[i])));
    assert_eq!(find_peaks(&filtered), Vec::<usize>::new());
    assert_eq!(result, Err(BiofeedbackError::InsufficientPeaks));
}

#[test]
fn a_short_signal_is_refused() {
    let processor = BiofeedbackProcessor::new(30_000);
    assert_eq!(processor.compute_resp_rate(&[]), Err(BiofeedbackError::SignalTooShort));
    assert_eq!(processor.compute_resp_rate(&[5; 99]), Err(BiofeedbackError::SignalTooShort));
    let wave = sine_wave(0.25, 30.0, 99);
    assert_eq!(compute_respiratory_rate(&wave, 30_000), Err(BiofeedbackError::SignalTooShort));
}

#[test]
fn a_flat_signal_has_no_peaks() {
    let processor = BiofeedbackProcessor::new(30_000);
    assert_eq!(processor.compute_resp_rate(&[5; 100]), Err(BiofeedbackError::InsufficientPeaks));
    assert_eq!(
        processor.compute_resp_rate(&[-5; 1000]),
        Err(BiofeedbackError::InsufficientPeaks)
    );
}

#[test]
fn respiratory_rate_of_a_quarter_hertz_wave() {
    let signal = sine_wave(0.25, 30.0, 600);
    let processor = BiofeedbackProcessor::new(to_raw(30.0) as u32);
    let result = processor.compute_resp_rate(&signal);
    // Peaks at samples 75, 210, 330 and 450: three gaps over 375 samples.
    assert_eq!(result, Ok(Ratio { numerator: 60 * 30_000 * 3, denominator: 375 }));
    let resp_rate = per_minute(result.unwrap());
    assert_eq!(resp_rate, 14.4);
    assert!(resp_rate > 8.0 && resp_rate < 20.0);
    assert_eq!(compute_respiratory_rate(&signal, 30_000), result);
}

#[test]
fn a_crest_between_two_equal_samples_is_no_peak() {
    // 0.2 Hz at 30 Hz repeats every 150 samples, and the crests of the
    // smoothed wave fall halfway between two samples of equal height.
    let processor = BiofeedbackProcessor::new(30_000);
    assert_eq!(
        processor.compute_resp_rate(&sine_wave(0.2, 30.0, 600)),
        Err(BiofeedbackError::InsufficientPeaks)
    );
}

#[test]
fn doubling_the_samples_keeps_the_outcome() {
    for (frequency, samples) in [(0.25, 600), (0.5, 300), (0.3, 300), (0.2, 300)] {
        let signal = sine_wave(frequency, 30.0, samples);
        let doubled: Vec<i32> = signal.iter().map(|v| 2 * v).collect();
        assert_eq!(
            compute_respiratory_rate(&doubled, 30_000),
            compute_respiratory_rate(&signal, 30_000)
        );
    }
}

#[test]
fn the_estimate_reads_the_signal_and_keeps_nothing() {
    let signal = sine_wave(0.5, 30.0, 300);
    let mut processor = BiofeedbackProcessor::new(30_000);
    let first = processor.compute_resp_rate(&signal);
    // Peaks at samples 12, 73, 135 and 195.
    assert_eq!(first, Ok(Ratio { numerator: 5_400_000, denominator: 183 }));
    processor.add_rr_intervals(&[800_000, 810_000]);
    processor.add_facial_data(1, 2, 3, 4);
    assert_eq!(processor.compute_resp_rate(&signal), first);
    assert_eq!(processor.compute_resp_rate(&signal), first);
}

#[test]
fn the_sampling_rate_sets_the_window_and_the_time_scale() {
    // Quarter-hertz waves at 15 Hz and at 10 Hz: half-widths 50 and 33.
    // Peaks at 37, 105, 165, 225.
    assert_eq!(
        compute_respiratory_rate(&sine_wave(0.25, 15.0, 300), 15_000),
        Ok(Ratio { numerator: 60 * 15_000 * 3, denominator: 188 })
    );
    // Peaks at 25, 70, 110, 150.
    assert_eq!(
        compute_respiratory_rate(&sine_wave(0.25, 10.0, 200), 10_000),
        Ok(Ratio { numerator: 60 * 10_000 * 3, denominator: 125 })
    );
    // Peaks at 71 and 175.
    assert_eq!(
        compute_respiratory_rate(&sine_wave(0.3, 30.0, 300), 30_000),
        Ok(Ratio { numerator: 60 * 30_000, denominator: 104 })
    );
}

#[test]
fn a_successful_rate_is_above_zero_however_slow_the_sampling() {
    // The same peaks read at 0.001 Hz: 60 / 104000 s, not zero.
    let rate = compute_respiratory_rate(&sine_wave(0.3, 30.0, 300), 1).unwrap();
    assert!(rate.numerator > 0);
    assert!(per_minute(rate) > 0.0);
    // A sampling rate of zero gives a rate of zero.
    let stopped = compute_respiratory_rate(&sine_wave(0.3, 30.0, 300), 0).unwrap();
    assert_eq!(stopped.numerator, 0);
    assert!(stopped.denominator > 0);
}

#[test]
fn the_filter_keeps_the_length() {
    assert_eq!(bandpass_filter(&[], 30_000, 100, 500), Vec::<Mean>::new());
    assert_eq!(bandpass_filter(&[7], 30_000, 100, 500), vec![Mean { total: 7, count: 1 }]);
    assert_eq!(bandpass_filter(&[1; 500], 30_000, 100, 500).len(), 500);
}

#[test]
fn the_filter_averages_a_window_cut_off_at_the_ends() {
    // A rate of 0.6 Hz asks for a half-width of 2, which is raised to 3.
    let signal: Vec<i32> = vec![0, 10, 20, 30, 40, 50, 60, 70, 80, 90];
    let filtered = bandpass_filter(&signal, 600, 100, 500);
    let expected: Vec<Mean> = vec![
        Mean { total: 60, count: 4 },  // 0..=3
        Mean { total: 100, count: 5 }, // 0..=4
        Mean { total: 150, count: 6 }, // 0..=5
        Mean { total: 210, count: 7 }, // 0..=6
        Mean { total: 280, count: 7 }, // 1..=7
        Mean { total: 350, count: 7 }, // 2..=8
        Mean { total: 420, count: 7 }, // 3..=9
        Mean { total: 390, count: 6 }, // 4..=9
        Mean { total: 350, count: 5 }, // 5..=9
        Mean { total: 300, count: 4 }, // 6..=9
    ];
    assert_eq!(filtered, expected);
}

#[test]
fn the_filter_takes_negative_samples() {
    // Seven samples, half-width 3: every window covers at least four.
    let filtered = bandpass_filter(&[1, 0, 0, 0, 0, 0, -1], 600, 100, 500);
    let totals: Vec<i128> = filtered.iter().map(|m| m.total).collect();
    let counts: Vec<u64> = filtered.iter().map(|m| m.count).collect();
    assert_eq!(totals, vec![1, 1, 1, 0, -1, -1, -1]);
    assert_eq!(counts, vec![4, 5, 6, 7, 6, 5, 4]);
}

#[test]
fn the_half_width_follows_the_band_and_the_length() {
    // An impulse shows the window: it is seen from w samples on either side.
    let mut signal = vec![0; 41];
    signal[20] = 1_000;
    let reach = |filtered: &Vec<Mean>| filtered.iter().filter(|m| m.total != 0).count();
    // 3 Hz over 0.6 Hz, doubled: 10, which is a quarter of the length.
    assert_eq!(reach(&bandpass_filter(&signal, 3_000, 100, 500)), 21);
    // 30 Hz asks for 100 and gets a quarter of the length.
    assert_eq!(reach(&bandpass_filter(&signal, 30_000, 100, 500)), 21);
    // 1.5 Hz asks for 5.
    assert_eq!(reach(&bandpass_filter(&signal, 1_500, 100, 500)), 11);
    // 1.335 Hz asks for 4.45, 1.365 Hz for 4.55.
    assert_eq!(reach(&bandpass_filter(&signal, 1_335, 100, 500)), 9);
    assert_eq!(reach(&bandpass_filter(&signal, 1_365, 100, 500)), 11);
    // 1.35 Hz asks for 4.5, which rounds up.
    assert_eq!(reach(&bandpass_filter(&signal, 1_350, 100, 500)), 11);
    // Less than 3 is raised to 3, for a rate of zero too.
    assert_eq!(reach(&bandpass_filter(&signal, 300, 100, 500)), 7);
    assert_eq!(reach(&bandpass_filter(&signal, 0, 100, 500)), 7);
    // A band that sums to zero asks for the widest window.
    assert_eq!(reach(&bandpass_filter(&signal, 30_000, 0, 0)), 21);
    // A signal shorter than twelve samples still gets a half-width of 3.
    let mut short = vec![0; 9];
    short[4] = 1_000;
    assert_eq!(reach(&bandpass_filter(&short, 30_000, 100, 500)), 7);
}

#[test]
fn the_filter_takes_the_largest_samples() {
    let filtered = bandpass_filter(&[i32::MAX; 50], u32::MAX, 1, 0);
    assert!(filtered.iter().all(|m| m.total == i32::MAX as i128 * m.count as i128));
    assert_eq!(filtered[0].count, 13);
    assert_eq!(filtered[25].count, 25);
    let filtered = bandpass_filter(&[i32::MIN; 50], u32::MAX, u32::MAX, u32::MAX);
    assert!(filtered.iter().all(|m| m.total == i32::MIN as i128 * m.count as i128));
    assert_eq!(filtered[25].count, 7);
}

#[test]
fn means_are_compared_exactly() {
    let third = Mean { total: 1, count: 3 };
    let two_sixths = Mean { total: 2, count: 6 };
    let bit_more = Mean { total: 333_334, count: 1_000_000 };
    let minus_third = Mean { total: -1, count: 3 };
    assert!(!third.is_above(&two_sixths));
    assert!(!two_sixths.is_above(&third));
    assert!(bit_more.is_above(&third));
    assert!(!third.is_above(&bit_more));
    assert!(third.is_above(&minus_third));
    assert!(!minus_third.is_above(&third));
    assert!(!minus_third.is_above(&minus_third));
    // Twice a third is two thirds.
    assert!(third.twice_is_above(&third));
    assert!(!third.twice_is_above(&Mean { total: 2, count: 3 }));
    assert!(third.twice_is_above(&Mean { total: 666_666, count: 1_000_000 }));
    assert!(!third.twice_is_above(&Mean { total: 666_667, count: 1_000_000 }));
    assert!(!minus_third.twice_is_above(&minus_third));
    assert!(minus_third.twice_is_above(&Mean { total: -1, count: 1 }));
    // Totals and counts whose products do not fit 128 bits.
    let many = u64::MAX;
    let high = Mean { total: i32::MAX as i128 * many as i128, count: many };
    let nearly = Mean { total: i32::MAX as i128 * (many - 1) as i128 - 1, count: many - 1 };
    let low = Mean { total: i32::MIN as i128 * many as i128, count: many };
    assert!(high.is_above(&nearly));
    assert!(!nearly.is_above(&high));
    assert!(!high.is_above(&high));
    assert!(nearly.is_above(&low));
    assert!(high.twice_is_above(&nearly));
    assert!(!low.twice_is_above(&high));
    assert!(!low.twice_is_above(&low));
}

#[test]
fn peaks_are_interior_and_above_half_of_the_maximum() {
    assert_eq!(find_peaks(&whole(&[0, 10, 0, 6, 0, 5, 0, 4, 0])), vec![1, 3]);
    // Exactly half of the maximum is not above it.
    assert_eq!(find_peaks(&whole(&[0, 10, 0, 5, 0])), vec![1]);
    // Half of 11 is 5.5, so 6 is above it and 5 is not.
    assert_eq!(find_peaks(&whole(&[0, 11, 0, 6, 0, 5, 0])), vec![1, 3]);
}

#[test]
fn peaks_of_means_over_windows_of_different_widths() {
    // 1/2, 2/3, 3/5, 5/7, 0: the second and the fourth are peaks.
    let signal = vec![
        Mean { total: 1, count: 2 },
        Mean { total: 2, count: 3 },
        Mean { total: 3, count: 5 },
        Mean { total: 5, count: 7 },
        Mean { total: 0, count: 4 },
    ];
    assert_eq!(find_peaks(&signal), vec![1, 3]);
    // 10/1, 0, 15/3, 0, 16/3, 0: five is half of ten, five and a third is more.
    let signal = vec![
        Mean { total: 10, count: 1 },
        Mean { total: 0, count: 1 },
        Mean { total: 15, count: 3 },
        Mean { total: 0, count: 1 },
        Mean { total: 16, count: 3 },
        Mean { total: 0, count: 1 },
    ];
    assert_eq!(find_peaks(&signal), vec![4]);
}

#[test]
fn end_points_are_never_peaks() {
    assert_eq!(find_peaks(&whole(&[10, 0, 0])), Vec::<usize>::new());
    assert_eq!(find_peaks(&whole(&[0, 0, 10])), Vec::<usize>::new());
    assert_eq!(find_peaks(&whole(&[10, 1, 9, 1, 10])), vec![2]);
    assert_eq!(find_peaks(&[]), Vec::<usize>::new());
    assert_eq!(find_peaks(&whole(&[5])), Vec::<usize>::new());
    assert_eq!(find_peaks(&whole(&[1, 5])), Vec::<usize>::new());
    assert_eq!(find_peaks(&whole(&[1, 5, 1])), vec![1]);
}

#[test]
fn a_plateau_holds_no_peak() {
    assert_eq!(find_peaks(&whole(&[0, 10, 10, 0])), Vec::<usize>::new());
    assert_eq!(find_peaks(&whole(&[0, 10, 10, 0, 9, 0])), vec![4]);
    assert_eq!(find_peaks(&whole(&[3, 3, 3, 3])), Vec::<usize>::new());
}

#[test]
fn a_signal_without_positive_samples_has_no_peak() {
    // The maximum is taken as zero, and no sample is above zero.
    assert_eq!(find_peaks(&whole(&[-5, -1, -5])), Vec::<usize>::new());
    assert_eq!(find_peaks(&whole(&[-5, 0, -5])), Vec::<usize>::new());
    assert_eq!(find_peaks(&whole(&[-5, 1, -5])), vec![1]);
    assert_eq!(find_peaks(&whole(&[i32::MIN, i32::MAX, i32::MIN, i32::MAX, 0])), vec![1, 3]);
}

#[test]
fn rate_from_the_mean_gap_between_peaks() {
    // Gaps of 135, 120 and 120 samples at 30 Hz: 4.1666.. s, 14.4 per minute.
    let rate = rate_from_peaks(&[75, 210, 330, 450], 30_000);
    assert_eq!(rate, Ratio { numerator: 5_400_000, denominator: 375 });
    assert_eq!(per_minute(rate), 14.4);
    // One gap of 150 samples at 30 Hz is five seconds.
    let rate = rate_from_peaks(&[113, 263], 30_000);
    assert_eq!(rate, Ratio { numerator: 1_800_000, denominator: 150 });
    assert_eq!(per_minute(rate), 12.0);
    assert_eq!(
        rate_from_peaks(&[1, 3, 8], 30_000),
        Ratio { numerator: 3_600_000, denominator: 7 }
    );
    // Peaks at 20 and 85 read at 0.001 Hz: 60 / 65000 s.
    let slow = rate_from_peaks(&[20, 85], 1);
    assert_eq!(slow, Ratio { numerator: 60, denominator: 65 });
    assert!((per_minute(slow) - 60.0 / 65_000.0).abs() < 1e-12);
    assert_eq!(
        rate_from_peaks(&[0, usize::MAX], u32::MAX),
        Ratio { numerator: 60 * u32::MAX as u128, denominator: usize::MAX as u64 }
    );
}

#[test]
fn division_rounds_towards_negative_infinity() {
    assert_eq!(floor_div_rem(7, 2), (3, 1));
    assert_eq!(floor_div_rem(-7, 2), (-4, 1));
    assert_eq!(floor_div_rem(-8, 2), (-4, 0));
    assert_eq!(floor_div_rem(-1, 5), (-1, 4));
    assert_eq!(floor_div_rem(0, 5), (0, 0));
    assert_eq!(floor_div_rem(-5, 5), (-1, 0));
    assert_eq!(floor_div_rem(i128::MIN, 1), (i128::MIN, 0));
    assert_eq!(
        floor_div_rem(i128::MIN, u64::MAX),
        (-9223372036854775809, 9223372036854775807)
    );
    assert_eq!(
        floor_div_rem(i128::MAX, u64::MAX),
        (9223372036854775808, 9223372036854775807)
    );
}
