# audio_recorder

Records the default microphone and the default output device into two WAV
files. The decisions and the sample bookkeeping are a Verus-verified library
(`src/`); the program that talks to the audio devices, the channels, the ring
buffers, the resampler and the files is ordinary Rust (`app/`).

- `src/pipeline.rs`: stream configuration and the messages from capture to writer.
- `src/capture.rs`: which device sample formats are accepted, and the drain
  loop that moves samples from the ring buffer to the writer (forward each
  batch with exactly the samples popped, probe the writer after every hundred
  empty polls, stop when it is gone; once capture is paused, deliver what is
  left in the ring and then send the stop).
- `src/writer.rs`: the WAV format of a stream and the writer loop (write,
  flush, drain what is queued after a stop, finalize once, give up without
  finalizing when the sink fails), with a proof of
  what the sink sees over a whole session.
- `src/session.rs`: the end of a stream, proved end to end: every sample left
  in the ring at the pause is written before the one finalization.
- `src/processor.rs`: frames for the down-mix to mono, the chunk queue in
  front of the resampler (nothing lost, whole chunks in order, a chunk
  released only after it was resampled and written, fewer than a chunk left
  after a write, the same chunks however the input is split, a
  padded tail), and how much of the tail's output is kept.
- `src/audio_device.rs`: the name shown for a device.
