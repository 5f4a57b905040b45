//! The real-time side: sample history, detect hand-off and overlap-add cleaning.

pub mod alignment;
pub mod block_laws;
pub mod detect_worker;
pub mod laws;
pub mod listening_laws;
pub mod ops;
pub mod overlap;
pub mod processor;
pub mod queue;
pub mod ring;
pub mod samples;
pub mod settings_laws;
pub mod window;
pub mod window_laws;

pub use processor::{CleanStrength, OperationMode, RealtimeProcessor, CLEAN_WINDOW_SAMPLES};
