//! Per-sample audio processing core: a one-pole low-pass filter followed by a
//! makeup gain stage, driven per channel by a stream driver that carries the
//! filter state across process blocks.
//!
//! All audio values are Q16.16 fixed-point amplitudes held in `i64`: the
//! constant [`fixed::FIXED_ONE`] stands for an amplitude of one. The smoothing
//! coefficient and the linear gain live on the same scale. A host adapter owns
//! the conversion between its own sample format and these fixed-point values,
//! clamps parameters into the documented ranges, and calls the driver once per
//! audio block.

pub mod coeff;
pub mod driver;
pub mod filter;
pub mod fixed;
pub mod makeup;
