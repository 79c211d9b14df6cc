//! Physiological signal metrics over fixed-point samples: heart-rate
//! variability from RR intervals, running statistics of facial telemetry, and
//! a respiratory-rate estimate from a raw waveform.

pub mod channel;
pub mod error;
pub mod laws;
pub mod numeric;
pub mod processor;
pub mod signal;
pub mod stats;

pub use channel::{ChannelBuffer, FacialMetrics, CHANNEL_CAPACITY};
pub use error::BiofeedbackError;
pub use numeric::{Mean, Ratio, Variance, SCALE};
pub use processor::{
    compute_facial_metrics_from_data, compute_hrv_metrics, compute_respiratory_rate,
    BiofeedbackProcessor, FacialSummary, HrvMetrics,
};
