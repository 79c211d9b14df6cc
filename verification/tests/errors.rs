use biofeedback::BiofeedbackError;

#[test]
fn each_error_has_its_description() {
    assert_eq!(
        BiofeedbackError::InsufficientData.message(),
        "Need at least 2 RR intervals for HRV calculation"
    );
    assert_eq!(
        BiofeedbackError::SignalTooShort.message(),
        "Signal too short for respiratory rate calculation"
    );
    assert_eq!(
        BiofeedbackError::InsufficientPeaks.message(),
        "Not enough respiratory peaks detected"
    );
    assert_eq!(BiofeedbackError::NoFacialData.message(), "No facial data available");
}
