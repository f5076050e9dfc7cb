use audio_recorder::capture::{
    after_send, input_conversion, AfterSend, DrainLoop, SampleConversion, SampleFormat, SendOutcome,
    StepKind, UnsupportedSampleFormat, DRAIN_BATCH, IDLE_POLLS_PER_PROBE, RING_CAPACITY,
};

#[test]
fn capture_constants() {
    assert_eq!(RING_CAPACITY, 65536);
    assert_eq!(DRAIN_BATCH, 1024);
    assert_eq!(IDLE_POLLS_PER_PROBE, 100);
}

#[test]
fn supported_input_formats() {
    assert_eq!(input_conversion(SampleFormat::F32), Ok(SampleConversion::Float32));
    assert_eq!(input_conversion(SampleFormat::I16), Ok(SampleConversion::SignedInt16));
    assert_eq!(input_conversion(SampleFormat::U16), Ok(SampleConversion::UnsignedInt16));
}

#[test]
fn unsupported_input_formats_are_refused() {
    for f in [
        SampleFormat::I8,
        SampleFormat::I24,
        SampleFormat::I32,
        SampleFormat::I64,
        SampleFormat::U8,
        SampleFormat::U24,
        SampleFormat::U32,
        SampleFormat::U64,
        SampleFormat::F64,
        SampleFormat::DsdU8,
        SampleFormat::DsdU16,
        SampleFormat::DsdU32,
    ] {
        assert_eq!(input_conversion(f), Err(UnsupportedSampleFormat { format: f }));
    }
}

#[test]
fn drain_forwards_exactly_the_popped_samples() {
    let mut d = DrainLoop::new();
    let batch = [1.5f32, 2.5, 3.5, 0.0, 0.0];
    let step = d.on_popped(&batch, 3);
    assert_eq!(step.kind, StepKind::Forward(3));
    assert_eq!(step.payload, vec![1.5, 2.5, 3.5]);
    assert_eq!(d.idle_polls(), 0);
}

#[test]
fn drain_probes_every_hundred_empty_polls() {
    let mut d = DrainLoop::new();
    let batch = [0u32; 4];
    for _ in 0..99 {
        let step = d.on_popped(&batch, 0);
        assert_eq!(step.kind, StepKind::Wait);
        assert!(step.payload.is_empty());
    }
    assert_eq!(d.idle_polls(), 99);
    let step = d.on_popped(&batch, 0);
    assert_eq!(step.kind, StepKind::Probe);
    assert!(step.payload.is_empty());
    assert_eq!(d.idle_polls(), 0);
}

#[test]
fn drain_idle_count_survives_data() {
    // 150 empty polls with data in between give exactly one probe and leave 50 counted.
    let mut d = DrainLoop::new();
    let batch: Vec<usize> = (0..DRAIN_BATCH).collect();
    let mut probes = 0;
    let mut forwarded = Vec::new();
    for i in 0..200usize {
        let popped = if i % 4 == 0 { i / 4 + 1 } else { 0 };
        let step = d.on_popped(&batch, popped);
        match step.kind {
            StepKind::Probe => probes += 1,
            StepKind::Forward(n) => {
                assert_eq!(step.payload, batch[..n].to_vec());
                forwarded.push(n)
            }
            StepKind::Wait => {}
            _ => panic!("no stop was requested"),
        }
    }
    assert_eq!(probes, 1);
    assert_eq!(d.idle_polls(), 50);
    assert_eq!(forwarded.len(), 50);
    assert_eq!(forwarded[0], 1);
    assert_eq!(forwarded[49], 50);
}

#[test]
fn drain_empties_ring_after_pause_then_stops() {
    let mut d = DrainLoop::new();
    assert!(!d.is_stopping());
    d.request_stop();
    assert!(d.is_stopping());
    let batch = [7i16, 8, 9];
    let step = d.on_popped(&batch, 3);
    assert_eq!(step.kind, StepKind::Deliver(3));
    assert_eq!(step.payload, vec![7, 8, 9]);
    let step = d.on_popped(&batch, 1);
    assert_eq!(step.kind, StepKind::Deliver(1));
    assert_eq!(step.payload, vec![7]);
    let step = d.on_popped(&batch, 0);
    assert_eq!(step.kind, StepKind::Finish);
    assert!(step.payload.is_empty());
    assert_eq!(after_send(StepKind::Finish, SendOutcome::Delivered), AfterSend::Exit);
    assert_eq!(after_send(StepKind::Deliver(3), SendOutcome::Delivered), AfterSend::Continue);
}

#[test]
fn drain_send_outcomes() {
    assert_eq!(after_send(StepKind::Forward(7), SendOutcome::Delivered), AfterSend::Continue);
    assert_eq!(after_send(StepKind::Forward(7), SendOutcome::Full), AfterSend::Dropped(7));
    assert_eq!(after_send(StepKind::Forward(7), SendOutcome::Disconnected), AfterSend::Exit);
    assert_eq!(after_send(StepKind::Probe, SendOutcome::Delivered), AfterSend::Continue);
    assert_eq!(after_send(StepKind::Probe, SendOutcome::Full), AfterSend::Continue);
    assert_eq!(after_send(StepKind::Probe, SendOutcome::Disconnected), AfterSend::Exit);
    assert_eq!(after_send(StepKind::Deliver(2), SendOutcome::Disconnected), AfterSend::Exit);
    assert_eq!(after_send(StepKind::Finish, SendOutcome::Disconnected), AfterSend::Exit);
    assert_eq!(after_send(StepKind::Wait, SendOutcome::Disconnected), AfterSend::Continue);
}
