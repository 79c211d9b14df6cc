use biofeedback::stats::compute_eye_movement_frequency;
use biofeedback::{
    compute_facial_metrics_from_data, BiofeedbackError, BiofeedbackProcessor, FacialSummary, Mean,
    Ratio, Variance,
};

#[test]
fn no_facial_data_in_a_new_context() {
    let processor = BiofeedbackProcessor::new(30_000);
    assert_eq!(processor.compute_facial_metrics(), Err(BiofeedbackError::NoFacialData));
    assert_eq!(
        compute_facial_metrics_from_data(&[], &[], &[], &[]),
        Err(BiofeedbackError::NoFacialData)
    );
}

#[test]
fn rr_intervals_are_no_facial_data() {
    let mut processor = BiofeedbackProcessor::new(30_000);
    processor.add_rr_intervals(&[800_000, 810_000]);
    assert_eq!(processor.compute_facial_metrics(), Err(BiofeedbackError::NoFacialData));
}

#[test]
fn facial_summary_of_one_sample() {
    let mut processor = BiofeedbackProcessor::new(30_000);
    processor.add_facial_data(500, 200, 17_000, 900);
    assert_eq!(
        processor.compute_facial_metrics(),
        Ok(FacialSummary {
            mean_tension: Mean { total: 500, count: 1 },
            tension_variability_squared: Variance { squares: 0, rest: 0, count: 1 },
            mean_eye_movement: Mean { total: 200, count: 1 },
            eye_movement_frequency: Ratio { numerator: 0, denominator: 1 },
            mean_blink_rate: Mean { total: 17_000, count: 1 },
            mean_symmetry: Mean { total: 900, count: 1 },
        })
    );
}

#[test]
fn facial_summary_of_four_samples() {
    let mut processor = BiofeedbackProcessor::new(30_000);
    processor.add_facial_data(200, 0, 15_000, 900);
    processor.add_facial_data(400, 200, 16_000, 950);
    processor.add_facial_data(400, 250, 17_000, 1_000);
    processor.add_facial_data(600, 500, 19_000, 951);
    let summary = processor.compute_facial_metrics().unwrap();
    assert_eq!(summary.mean_tension, Mean { total: 1_600, count: 4 });
    // Squared distances from 400: 40000, 0, 0, 40000.
    assert_eq!(
        summary.tension_variability_squared,
        Variance { squares: 80_000, rest: 0, count: 4 }
    );
    assert_eq!(summary.mean_eye_movement, Mean { total: 950, count: 4 });
    // Steps 0.2, 0.05, 0.25: two of three beyond 0.1, at 30 Hz.
    assert_eq!(summary.eye_movement_frequency, Ratio { numerator: 60_000, denominator: 3 });
    assert_eq!(summary.mean_blink_rate, Mean { total: 67_000, count: 4 });
    assert_eq!(summary.mean_symmetry, Mean { total: 3_801, count: 4 });
}

#[test]
fn eye_movement_frequency_counts_steps_strictly_beyond_a_tenth() {
    let none = Ratio { numerator: 0, denominator: 1 };
    assert_eq!(compute_eye_movement_frequency(&[], 30_000), none);
    assert_eq!(compute_eye_movement_frequency(&[700], 30_000), none);
    assert_eq!(compute_eye_movement_frequency(&[0, 100], 30_000), none);
    assert_eq!(
        compute_eye_movement_frequency(&[0, 101], 30_000),
        Ratio { numerator: 30_000, denominator: 1 }
    );
    assert_eq!(
        compute_eye_movement_frequency(&[0, -101], 30_000),
        Ratio { numerator: 30_000, denominator: 1 }
    );
    assert_eq!(
        compute_eye_movement_frequency(&[0, 101, 0, 0], 30_000),
        Ratio { numerator: 60_000, denominator: 3 }
    );
    assert_eq!(
        compute_eye_movement_frequency(&[0, 101, 0, 0], 25_000),
        Ratio { numerator: 50_000, denominator: 3 }
    );
    assert_eq!(
        compute_eye_movement_frequency(&[0, 101, 0, 0], 0),
        Ratio { numerator: 0, denominator: 3 }
    );
    assert_eq!(
        compute_eye_movement_frequency(&[i32::MIN, i32::MAX, i32::MIN], u32::MAX),
        Ratio { numerator: 2 * u32::MAX as u128, denominator: 2 }
    );
}

#[test]
fn the_stateless_summary_uses_the_default_rate() {
    let at_once = compute_facial_metrics_from_data(
        &[200, 400, 400, 600],
        &[0, 200, 250, 500],
        &[15_000, 16_000, 17_000, 19_000],
        &[900, 950, 1_000, 951],
    );
    let mut processor = BiofeedbackProcessor::new(30_000);
    processor.add_facial_data(200, 0, 15_000, 900);
    processor.add_facial_data(400, 200, 16_000, 950);
    processor.add_facial_data(400, 250, 17_000, 1_000);
    processor.add_facial_data(600, 500, 19_000, 951);
    assert_eq!(at_once, processor.compute_facial_metrics());
    assert_eq!(
        at_once.unwrap().eye_movement_frequency,
        Ratio { numerator: 60_000, denominator: 3 }
    );
}

#[test]
fn the_stateless_summary_reads_one_sample_per_tension_sample() {
    let summary =
        compute_facial_metrics_from_data(&[10, 20], &[1, 3, 99], &[5, 7, 99, 99], &[8, 8, 8])
            .unwrap();
    assert_eq!(summary.mean_tension, Mean { total: 30, count: 2 });
    assert_eq!(summary.mean_eye_movement, Mean { total: 4, count: 2 });
    assert_eq!(summary.mean_blink_rate, Mean { total: 12, count: 2 });
    assert_eq!(summary.mean_symmetry, Mean { total: 16, count: 2 });
}

#[test]
fn the_summary_covers_the_newest_hundred_samples() {
    let mut processor = BiofeedbackProcessor::new(30_000);
    let mut tension: Vec<i32> = Vec::new();
    let mut others: Vec<i32> = Vec::new();
    for i in 0..105 {
        let value = if i < 5 { 1_000_000 } else { 10 };
        processor.add_facial_data(value, i, 3, 4);
        tension.push(value);
        others.push(i);
    }
    let summary = processor.compute_facial_metrics().unwrap();
    // The five large samples came first and are gone.
    assert_eq!(summary.mean_tension, Mean { total: 1_000, count: 100 });
    assert_eq!(
        summary.tension_variability_squared,
        Variance { squares: 0, rest: 0, count: 100 }
    );
    // Eye movement holds 5, 6, .., 104.
    assert_eq!(summary.mean_eye_movement, Mean { total: 5_450, count: 100 });
    assert_eq!(summary.eye_movement_frequency, Ratio { numerator: 0, denominator: 99 });
    let threes = vec![3; 105];
    let fours = vec![4; 105];
    assert_eq!(
        compute_facial_metrics_from_data(&tension, &others, &threes, &fours),
        Ok(summary)
    );
}

#[test]
fn computing_the_facial_summary_twice_gives_the_same() {
    let mut processor = BiofeedbackProcessor::new(30_000);
    processor.add_facial_data(200, 0, 15_000, 900);
    processor.add_facial_data(450, 300, 16_000, 950);
    let first = processor.compute_facial_metrics();
    assert_eq!(processor.compute_facial_metrics(), first);
    assert!(first.is_ok());
}
