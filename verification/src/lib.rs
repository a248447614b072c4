//! Verified core of a terminal audio-visualization dashboard.
//!
//! The audio pipeline (ring buffer, window & transform engine, capture
//! selection, smoothing) works on fixed-point integer samples so that every
//! step carries a contract; the thin binary converts device samples at the
//! boundary.

pub mod capture;
pub mod cli;
pub mod config;
pub mod control;
pub mod git;
pub mod lyrics;
pub mod ring;
pub mod smoothing;
pub mod synth;
pub mod text;
pub mod theme;
pub mod transform;
pub mod trig;
