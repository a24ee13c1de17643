//! Core of a two-deck DJ player: beat analysis, deck transport, effects,
//! mixing and metadata caching, stated over integer models.
//!
//! Time is carried in milliseconds, tempo in thousandths of a BPM, and
//! amplitudes and control values in fixed-point units of `UNIT` (one full-scale
//! sample). The shells that decode audio, drive the soundcard and draw the
//! interface convert at the boundary.

pub mod beatgrid;
pub mod cache;
pub mod deck;
pub mod fx;
pub mod library;
pub mod mix;
pub mod pads;
pub mod units;
pub mod waveform;
