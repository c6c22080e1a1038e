//! Core of a dictation-activity overlay: a bar graph that pulses with live
//! microphone amplitude while recording, breathes with a self-driven wave
//! while a transcription runs, and hides itself when nothing is happening.
//!
//! All heights and amplitudes are fixed-point values in thousandths of a
//! display unit (milli-units), so a displayed height of 3.0 units is the
//! integer 3000 here. Angles for the idle wave are in milliradians.
//!
//! The surrounding process owns the clock and the two polled files (the raw
//! audio stream and the text state marker); it hands this library the bytes
//! it read and performs the surface actions the library decides on.

use vstd::prelude::*;

pub mod animator;
pub mod envelope;
pub mod math;
pub mod monitor;
pub mod sampler;
pub mod state;

verus! {

/// Number of bars in the displayed graph.
pub const NUM_BARS: usize = 12;

/// Smallest displayed bar height, in milli-units (3.0 units).
pub const MIN_BAR_HEIGHT: i32 = 3000;

/// Largest displayed bar height, in milli-units (20.0 units).
pub const MAX_BAR_HEIGHT: i32 = 20000;

/// Milli-units per display unit.
pub const MILLI: i32 = 1000;

/// A displayed height snaps to its target once they differ by no more than
/// this (0.3 units), instead of creeping asymptotically forever.
pub const SNAP_THRESHOLD: i32 = 300;

/// Exponential smoothing factor 0.3, as the fraction
/// `SMOOTHING_NUMER / SMOOTHING_DENOM` of the remaining gap covered per tick.
pub const SMOOTHING_NUMER: i32 = 3;

/// See `SMOOTHING_NUMER`.
pub const SMOOTHING_DENOM: i32 = 10;

/// Ceiling of the idle wave, in milli-units: 35% of `MAX_BAR_HEIGHT`.
pub const IDLE_CEILING: i32 = 7000;

/// Idle-wave phase advance per animation tick, in milliradians (0.06 rad).
pub const PHASE_STEP: u32 = 60;

/// Idle-wave phase offset between neighbouring bars, in milliradians
/// (0.45 rad).
pub const BAR_PHASE_OFFSET: u32 = 450;

/// Period of the idle wave in milliradians: one full turn, rounded to the
/// nearest even integer so the two half-waves are symmetric.
pub const WAVE_PERIOD: u32 = 6284;

/// Half of `WAVE_PERIOD`.
pub const WAVE_HALF_PERIOD: u32 = 3142;

/// Size of the trailing window read from the audio stream, in bytes.
pub const AUDIO_WINDOW_BYTES: u64 = 3200;

/// Size of the fixed stream header the read window must never dip into.
pub const AUDIO_HEADER_BYTES: u64 = 44;

/// Streams shorter than this are ignored entirely.
pub const MIN_STREAM_BYTES: u64 = 48;

/// Reads that yield fewer bytes than this are treated as failed.
pub const MIN_READ_BYTES: usize = 4;

/// An RMS amplitude of this many sample units maps to a fully lit bar.
pub const RMS_FULL_SCALE: u64 = 3000;

} // verus!
