//! Verified core of a sound level meter: the bounded sample queue between a
//! capture callback and a once-per-second consumer, the tick scheduling and
//! frame-admission decisions, the mirror-bin bookkeeping of the spectral
//! weighting pass, the calibration-file grammar, and the segment selection of
//! the calibration interpolator. Floating-point signal arithmetic itself is
//! left to the unverified shell around this crate; samples, gains and
//! readings cross the boundary as their raw bit patterns, and calibration
//! values as exact decimals.

mod buffer;
mod calibration;
mod interp;
mod numbers;
mod reading;
mod schedule;
mod spectral;
mod text;

pub use buffer::SampleBuffer;
pub use buffer::after_push;
pub use buffer::batch_overflows;
pub use buffer::kept_of;
pub use buffer::lemma_overfull_batch_keeps_capacity_prefix;
pub use buffer::spec_latency_samples;
pub use calibration::CalError;
pub use calibration::MicCalibrationData;
pub use calibration::extract_sensitivity;
pub use calibration::parse_calibration;
pub use calibration::sens_found;
pub use calibration::spec_sens_ok;
pub use calibration::spec_sens_value;
pub use calibration::strictly_increasing;
pub use interp::InterpPlan;
pub use interp::locate_segment;
pub use numbers::Micros;
pub use numbers::micros_lt;
pub use numbers::parse_micros;
pub use numbers::spec_number_micros;
pub use numbers::spec_valid_number;
pub use reading::SplReading;
pub use reading::f32_bits_finite;
pub use reading::spec_f32_bits_finite;
pub use schedule::NANOS_PER_SECOND;
pub use schedule::Orchestrator;
pub use schedule::Phase;
pub use schedule::TickDecision;
pub use schedule::delay_to_aligned_start_nanos;
pub use schedule::tick_decision;
pub use spectral::Weightings;
pub use spectral::cal_bin_center_micro_hz;
pub use spectral::cal_bin_centers;
pub use spectral::lemma_each_bin_weighted_once;
pub use spectral::lemma_mirror_pairing;
pub use spectral::mirror_bin;
pub use spectral::spec_mirror;
