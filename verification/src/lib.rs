//! Verified core of a real-time watermark detect / clean audio effect.
//!
//! The effect passes audio through, watches it for watermarks, or cleans it window by window
//! with a fixed latency. This crate holds the stream logic; sample values are bit patterns, and
//! the arithmetic on them is handed in (see [`rt::ops::SampleOps`]).

pub mod host_laws;
pub mod plugin;
pub mod rt;

pub use plugin::{Mode, PolezVst, PolezVstParams, ProcessReport, Strength};
pub use rt::detect_worker::{DETECT_ANALYSIS_SAMPLES, POLEZ_MIN_DETECT_SAMPLES};
pub use rt::processor::{CleanStrength, OperationMode, RealtimeProcessor, CLEAN_WINDOW_SAMPLES};
