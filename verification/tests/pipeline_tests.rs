use audio_recorder::audio_device::device_display_name;
use audio_recorder::pipeline::{AudioMessage, StreamConfig};
use audio_recorder::writer::{wav_format, SinkAction, WavSampleFormat, WriterEvent, WriterLoop, WriterPhase};

#[test]
fn stream_config_new_keeps_fields() {
    let cfg = StreamConfig::new("mic", 2, 48000);
    assert_eq!(cfg.label, "mic");
    assert_eq!(cfg.channels, 2);
    assert_eq!(cfg.sample_rate, 48000);
}

#[test]
fn wav_format_is_float32_with_stream_layout() {
    let cfg = StreamConfig::new("system", 6, 44100);
    let fmt = wav_format(&cfg);
    assert_eq!(fmt.channels, 6);
    assert_eq!(fmt.sample_rate, 44100);
    assert_eq!(fmt.bits_per_sample, 32);
    assert_eq!(fmt.sample_format, WavSampleFormat::Float);
}

#[test]
fn device_name_or_unknown() {
    assert_eq!(device_display_name(Some("USB Mic".to_string())), "USB Mic");
    assert_eq!(device_display_name(None), "Unknown device");
}

fn written(action: SinkAction<i32>) -> Option<Vec<i32>> {
    match action {
        SinkAction::Write(v) => Some(v),
        _ => None,
    }
}

#[test]
fn writer_forwards_samples_and_flushes_while_receiving() {
    let mut w = WriterLoop::new();
    assert_eq!(w.phase(), WriterPhase::Receiving);
    let a = w.step(WriterEvent::Message(AudioMessage::Samples(vec![1, 2, 3])));
    assert_eq!(written(a), Some(vec![1, 2, 3]));
    assert!(matches!(w.step(WriterEvent::Message(AudioMessage::<i32>::Flush)), SinkAction::Flush));
    assert_eq!(w.phase(), WriterPhase::Receiving);
    assert!(!w.is_finished());
}

#[test]
fn writer_session_drains_queue_after_stop_then_finalizes_once() {
    // before the stop: samples, flush; the stop; queued: samples, flush, stop, samples; then empty.
    let mut w = WriterLoop::new();
    let events: Vec<WriterEvent<i32>> = vec![
        WriterEvent::Message(AudioMessage::Samples(vec![1])),
        WriterEvent::Message(AudioMessage::Flush),
        WriterEvent::Message(AudioMessage::Stop),
        WriterEvent::Message(AudioMessage::Samples(vec![2, 3])),
        WriterEvent::Message(AudioMessage::Flush),
        WriterEvent::Message(AudioMessage::Stop),
        WriterEvent::Message(AudioMessage::Samples(vec![4])),
        WriterEvent::Exhausted,
    ];
    let mut ops: Vec<String> = Vec::new();
    for e in events {
        match w.step(e) {
            SinkAction::Write(v) => ops.push(format!("write{:?}", v)),
            SinkAction::Flush => ops.push("flush".to_string()),
            SinkAction::Finalize => ops.push("finalize".to_string()),
            SinkAction::Skip => {}
        }
    }
    assert_eq!(ops, vec!["write[1]", "flush", "write[2, 3]", "write[4]", "finalize"]);
    assert!(w.is_finished());
    assert!(matches!(w.step(WriterEvent::Message(AudioMessage::Samples(vec![9]))), SinkAction::Skip));
}

#[test]
fn writer_disconnect_acts_as_stop() {
    let mut w = WriterLoop::new();
    assert!(matches!(w.step(WriterEvent::<i32>::Exhausted), SinkAction::Skip));
    assert_eq!(w.phase(), WriterPhase::Draining);
    assert!(matches!(w.step(WriterEvent::<i32>::Exhausted), SinkAction::Finalize));
    assert_eq!(w.phase(), WriterPhase::Finished);
}

#[test]
fn writer_gives_up_after_sink_failure() {
    let mut w = WriterLoop::new();
    let _ = w.step(WriterEvent::Message(AudioMessage::Samples(vec![1])));
    w.sink_failed();
    assert_eq!(w.phase(), WriterPhase::Failed);
    assert!(w.is_done());
    assert!(!w.is_finished());
    assert!(matches!(w.step(WriterEvent::<i32>::Exhausted), SinkAction::Skip));
    assert!(matches!(w.step(WriterEvent::Message(AudioMessage::Samples(vec![2]))), SinkAction::Skip));
}
