//! Verified core of a two-stream audio recorder: per-stream configuration,
//! the messages that travel from capture to writer, the decisions of the
//! capture drain loop and of the writer loop, the proof that a stream's
//! shutdown loses no captured sample, and the sample bookkeeping of the
//! down-mix and resampling stages.

pub mod pipeline;
pub mod writer;
pub mod capture;
pub mod processor;
pub mod audio_device;
pub mod session;
