//! Why a computation was refused.

use vstd::prelude::*;

verus! {

/// A precondition on the data that a computation found unmet. The buffers
/// are left as they were.
#[derive(Clone, Copy, Debug, PartialEq, Eq, Structural)]
pub enum BiofeedbackError {
    /// Fewer than two RR intervals are stored.
    InsufficientData,
    /// The raw waveform has fewer than a hundred samples.
    SignalTooShort,
    /// The smoothed waveform has fewer than two peaks.
    InsufficientPeaks,
    /// No facial sample has been recorded.
    NoFacialData,
}

impl BiofeedbackError {
    /// The text that describes each error.
    pub open spec fn message_text(self) -> Seq<char> {
        match self {
            BiofeedbackError::InsufficientData => "Need at least 2 RR intervals for HRV calculation"@,
            BiofeedbackError::SignalTooShort => "Signal too short for respiratory rate calculation"@,
            BiofeedbackError::InsufficientPeaks => "Not enough respiratory peaks detected"@,
            BiofeedbackError::NoFacialData => "No facial data available"@,
        }
    }

    /// A description of the error for the caller to show.
    pub fn message(&self) -> (text: &'static str)
        ensures
            text@ == self.message_text(),
    {
        match self {
            BiofeedbackError::InsufficientData => "Need at least 2 RR intervals for HRV calculation",
            BiofeedbackError::SignalTooShort => "Signal too short for respiratory rate calculation",
            BiofeedbackError::InsufficientPeaks => "Not enough respiratory peaks detected",
            BiofeedbackError::NoFacialData => "No facial data available",
        }
    }
}

} // verus!
