use vstd::prelude::*;

verus! {

broadcast use vstd::string::group_string_axioms;

/// Number of messages the channel between a drain loop and its writer holds
/// before a send finds it full.
pub const CHANNEL_CAPACITY: usize = 512;

/// Format of one capture stream: a label used in names and logs, the number
/// of interleaved channels and the sample rate in Hz.
#[derive(Debug, Clone)]
pub struct StreamConfig {
    pub label: String,
    pub channels: u16,
    pub sample_rate: u32,
}

impl StreamConfig {
    /// Builds a configuration that owns a copy of `label`.
    pub fn new(label: &str, channels: u16, sample_rate: u32) -> (cfg: Self)
        ensures
            cfg.label@ == label@,
            cfg.channels == channels,
            cfg.sample_rate == sample_rate,
    {
        StreamConfig { label: label.to_string(), channels, sample_rate }
    }
}

/// What travels from a capture stream to its writer: a batch of samples
/// (interleaved, in capture order), a request to stop, or a request to flush.
/// The sample type is a parameter so that the decisions taken on messages are
/// independent of how a sample is represented.
#[derive(Debug)]
pub enum AudioMessage<S> {
    Samples(Vec<S>),
    Stop,
    Flush,
}

} // verus!
