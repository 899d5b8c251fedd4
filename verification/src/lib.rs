//! Ordered streaming segmentation-and-playback pipeline.
//!
//! Turns an incrementally generated text stream into an ordered sequence of
//! sentences ready for speech synthesis, and schedules their playback so that
//! audio is emitted in generation order regardless of how long synthesis of
//! each sentence takes.

pub mod boundary;
pub mod pipeline;
pub mod scheduler;
pub mod sequencer;
pub mod store;
pub mod text;

pub use text::strip_leading_newline;
