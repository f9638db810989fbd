//! Verified core of a pitch (F0) estimator: sample-rate planning, signal
//! framing and padding, local-argmax decoding windows, voicing
//! interpolation anchors and checkpoint decoding.
pub mod rates;
pub mod resample;
pub mod gpu;
pub mod signal;
pub mod spectrogram;
pub mod voicing;
pub mod decode;
pub mod model;
pub mod weights;
pub mod checkpoint;
