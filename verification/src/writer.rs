use vstd::prelude::*;
use crate::pipeline::{AudioMessage, StreamConfig};

verus! {

/// How samples are stored in a WAV file.
#[derive(Debug, Clone, Copy, PartialEq, Eq, Structural)]
pub enum WavSampleFormat {
    Float,
    Int,
}

/// The header fields of a WAV file: channel count, sample rate, bits per
/// sample and sample encoding.
#[derive(Debug, Clone, Copy, PartialEq, Eq, Structural)]
pub struct WavFormat {
    pub channels: u16,
    pub sample_rate: u32,
    pub bits_per_sample: u16,
    pub sample_format: WavSampleFormat,
}

/// The WAV format a stream is recorded in: the stream's own channel count
/// and sample rate, samples stored as 32-bit floats.
pub fn wav_format(cfg: &StreamConfig) -> (fmt: WavFormat)
    ensures
        fmt.channels == cfg.channels,
        fmt.sample_rate == cfg.sample_rate,
        fmt.bits_per_sample == 32,
        fmt.sample_format == WavSampleFormat::Float,
{
    WavFormat {
        channels: cfg.channels,
        sample_rate: cfg.sample_rate,
        bits_per_sample: 32,
        sample_format: WavSampleFormat::Float,
    }
}

/// Where a writer stands: taking messages with a blocking receive, taking
/// what is still queued after a stop, done (the sink was finalized), or
/// given up because a sink operation failed (the sink is not finalized).
#[derive(Debug, Clone, Copy, PartialEq, Eq, Structural)]
pub enum WriterPhase {
    Receiving,
    Draining,
    Finished,
    Failed,
}

/// What the writer learns from its channel. `Exhausted` is a disconnected
/// channel while receiving, and an empty (or disconnected) queue while
/// draining.
#[derive(Debug)]
pub enum WriterEvent<S> {
    Message(AudioMessage<S>),
    Exhausted,
}

/// What the writer asks of its sink next.
#[derive(Debug)]
pub enum SinkAction<S> {
    Write(Vec<S>),
    Flush,
    Finalize,
    Skip,
}

/// One transition of the writer: the next phase and the sink operation.
pub open spec fn writer_step<S>(phase: WriterPhase, event: WriterEvent<S>) -> (WriterPhase, SinkAction<S>) {
    match phase {
        WriterPhase::Receiving => match event {
            WriterEvent::Message(AudioMessage::Samples(v)) => (WriterPhase::Receiving, SinkAction::Write(v)),
            WriterEvent::Message(AudioMessage::Flush) => (WriterPhase::Receiving, SinkAction::Flush),
            WriterEvent::Message(AudioMessage::Stop) => (WriterPhase::Draining, SinkAction::Skip),
            WriterEvent::Exhausted => (WriterPhase::Draining, SinkAction::Skip),
        },
        WriterPhase::Draining => match event {
            WriterEvent::Message(AudioMessage::Samples(v)) => (WriterPhase::Draining, SinkAction::Write(v)),
            WriterEvent::Message(_) => (WriterPhase::Draining, SinkAction::Skip),
            WriterEvent::Exhausted => (WriterPhase::Finished, SinkAction::Finalize),
        },
        WriterPhase::Finished => (WriterPhase::Finished, SinkAction::Skip),
        WriterPhase::Failed => (WriterPhase::Failed, SinkAction::Skip),
    }
}

/// The transitions taken for a whole sequence of events, from `phase`: the
/// phase reached and the sink operation decided for each event, in order.
pub open spec fn writer_run<S>(phase: WriterPhase, events: Seq<WriterEvent<S>>) -> (WriterPhase, Seq<SinkAction<S>>)
    decreases events.len(),
{
    if events.len() == 0 {
        (phase, Seq::empty())
    } else {
        let (next, action) = writer_step(phase, events[0]);
        let (last, rest) = writer_run(next, events.subrange(1, events.len() as int));
        (last, seq![action] + rest)
    }
}

/// The operations that reach the sink: `Skip` removed.
pub open spec fn performed<S>(actions: Seq<SinkAction<S>>) -> Seq<SinkAction<S>>
    decreases actions.len(),
{
    if actions.len() == 0 {
        Seq::empty()
    } else {
        let rest = performed(actions.subrange(1, actions.len() as int));
        match actions[0] {
            SinkAction::Skip => rest,
            a => seq![a] + rest,
        }
    }
}

/// What the sink must see for messages taken before the stop: every batch
/// written and every flush request passed on, in order.
pub open spec fn received_ops<S>(msgs: Seq<AudioMessage<S>>) -> Seq<SinkAction<S>>
    decreases msgs.len(),
{
    if msgs.len() == 0 {
        Seq::empty()
    } else {
        let rest = received_ops(msgs.subrange(1, msgs.len() as int));
        match msgs[0] {
            AudioMessage::Samples(v) => seq![SinkAction::Write(v)] + rest,
            AudioMessage::Flush => seq![SinkAction::Flush] + rest,
            AudioMessage::Stop => rest,
        }
    }
}

/// What the sink must see for messages still queued after the stop: every
/// batch written, in order; flush and stop requests ignored.
pub open spec fn drained_ops<S>(msgs: Seq<AudioMessage<S>>) -> Seq<SinkAction<S>>
    decreases msgs.len(),
{
    if msgs.len() == 0 {
        Seq::empty()
    } else {
        let rest = drained_ops(msgs.subrange(1, msgs.len() as int));
        match msgs[0] {
            AudioMessage::Samples(v) => seq![SinkAction::Write(v)] + rest,
            _ => rest,
        }
    }
}

/// Messages as the writer receives them, one event each.
pub open spec fn as_events<S>(msgs: Seq<AudioMessage<S>>) -> Seq<WriterEvent<S>> {
    msgs.map_values(|m: AudioMessage<S>| WriterEvent::Message(m))
}

proof fn lemma_run_append<S>(phase: WriterPhase, a: Seq<WriterEvent<S>>, b: Seq<WriterEvent<S>>)
    ensures
        writer_run(phase, a + b) == (
            writer_run(writer_run(phase, a).0, b).0,
            writer_run(phase, a).1 + writer_run(writer_run(phase, a).0, b).1,
        ),
    decreases a.len(),
{
    if a.len() == 0 {
        assert(a + b =~= b);
    } else {
        let (next, action) = writer_step(phase, a[0]);
        assert((a + b).subrange(1, (a + b).len() as int) =~= a.subrange(1, a.len() as int) + b);
        lemma_run_append(next, a.subrange(1, a.len() as int), b);
        let x = writer_run(next, a.subrange(1, a.len() as int)).1;
        let y = writer_run(writer_run(phase, a).0, b).1;
        assert(seq![action] + (x + y) =~= (seq![action] + x) + y);
    }
}

proof fn lemma_performed_append<S>(x: Seq<SinkAction<S>>, y: Seq<SinkAction<S>>)
    ensures
        performed(x + y) == performed(x) + performed(y),
    decreases x.len(),
{
    if x.len() == 0 {
        assert(x + y =~= y);
        assert(performed(x) + performed(y) =~= performed(y));
    } else {
        assert((x + y).subrange(1, (x + y).len() as int) =~= x.subrange(1, x.len() as int) + y);
        lemma_performed_append(x.subrange(1, x.len() as int), y);
        let px = performed(x.subrange(1, x.len() as int));
        match x[0] {
            SinkAction::Skip => {},
            a => {
                assert(seq![a] + (px + performed(y)) =~= (seq![a] + px) + performed(y));
            },
        }
    }
}

proof fn lemma_run_received<S>(msgs: Seq<AudioMessage<S>>)
    requires
        forall|i: int| 0 <= i < msgs.len() ==> !(#[trigger] msgs[i] is Stop),
    ensures
        writer_run(WriterPhase::Receiving, as_events(msgs)).0 == WriterPhase::Receiving,
        performed(writer_run(WriterPhase::Receiving, as_events(msgs)).1) == received_ops(msgs),
    decreases msgs.len(),
{
    if msgs.len() > 0 {
        let tail = msgs.subrange(1, msgs.len() as int);
        assert(as_events(msgs).subrange(1, as_events(msgs).len() as int) =~= as_events(tail));
        assert(forall|i: int| 0 <= i < tail.len() ==> tail[i] == msgs[i + 1]);
        lemma_run_received(tail);
        let rest = writer_run(WriterPhase::Receiving, as_events(tail)).1;
        let (next, action) = writer_step(WriterPhase::Receiving, as_events(msgs)[0]);
        assert(writer_run(WriterPhase::Receiving, as_events(msgs)).1 == seq![action] + rest);
        assert((seq![action] + rest).subrange(1, (seq![action] + rest).len() as int) =~= rest);
    }
}

proof fn lemma_run_drained<S>(msgs: Seq<AudioMessage<S>>)
    ensures
        writer_run(WriterPhase::Draining, as_events(msgs)).0 == WriterPhase::Draining,
        performed(writer_run(WriterPhase::Draining, as_events(msgs)).1) == drained_ops(msgs),
    decreases msgs.len(),
{
    if msgs.len() > 0 {
        let tail = msgs.subrange(1, msgs.len() as int);
        assert(as_events(msgs).subrange(1, as_events(msgs).len() as int) =~= as_events(tail));
        lemma_run_drained(tail);
        let rest = writer_run(WriterPhase::Draining, as_events(tail)).1;
        let (next, action) = writer_step(WriterPhase::Draining, as_events(msgs)[0]);
        assert(writer_run(WriterPhase::Draining, as_events(msgs)).1 == seq![action] + rest);
        assert((seq![action] + rest).subrange(1, (seq![action] + rest).len() as int) =~= rest);
    }
}

/// A writer session, when no sink operation fails: the messages received
/// before the stop (`before`, none of them a stop), then the stop itself or
/// a disconnected channel (`stop`), then the messages still queued
/// (`after`), then an empty queue. The writer ends finished, and its sink
/// sees every batch received before the stop written and every flush
/// request passed on, then every batch still queued written (flush and stop
/// requests among them ignored), then exactly one finalization, in that
/// order and nothing else.
pub proof fn lemma_writer_session<S>(
    before: Seq<AudioMessage<S>>,
    stop: WriterEvent<S>,
    after: Seq<AudioMessage<S>>,
)
    requires
        forall|i: int| 0 <= i < before.len() ==> !(#[trigger] before[i] is Stop),
        stop is Exhausted || stop matches WriterEvent::Message(AudioMessage::Stop),
    ensures
        ({
            let events = as_events(before) + seq![stop] + as_events(after) + seq![WriterEvent::Exhausted];
            &&& writer_run(WriterPhase::Receiving, events).0 == WriterPhase::Finished
            &&& performed(writer_run(WriterPhase::Receiving, events).1)
                == received_ops(before) + drained_ops(after) + seq![SinkAction::Finalize]
        }),
{
    let e1 = as_events(before);
    let e2: Seq<WriterEvent<S>> = seq![stop];
    let e3 = as_events(after);
    let e4: Seq<WriterEvent<S>> = seq![WriterEvent::Exhausted];
    lemma_run_received(before);
    lemma_run_drained(after);
    let r1 = writer_run(WriterPhase::Receiving, e1);
    let r2 = writer_run(WriterPhase::Receiving, e2);
    let r3 = writer_run(WriterPhase::Draining, e3);
    let r4 = writer_run(WriterPhase::Draining, e4);
    assert(e2.subrange(1, 1) =~= Seq::<WriterEvent<S>>::empty());
    assert(e4.subrange(1, 1) =~= Seq::<WriterEvent<S>>::empty());
    assert(e2[0] == stop);
    assert(writer_step(WriterPhase::Receiving, stop).0 == WriterPhase::Draining);
    assert(writer_run(WriterPhase::Draining, e2.subrange(1, 1)).0 == WriterPhase::Draining);
    assert(r2.0 == WriterPhase::Draining);
    assert(writer_run(WriterPhase::Finished, e4.subrange(1, 1)).0 == WriterPhase::Finished);
    assert(r4.0 == WriterPhase::Finished);
    lemma_run_append(WriterPhase::Receiving, e1, e2);
    lemma_run_append(WriterPhase::Receiving, e1 + e2, e3);
    lemma_run_append(WriterPhase::Receiving, e1 + e2 + e3, e4);
    lemma_performed_append(r1.1, r2.1);
    lemma_performed_append(r1.1 + r2.1, r3.1);
    lemma_performed_append(r1.1 + r2.1 + r3.1, r4.1);
    assert(r2.1 == seq![SinkAction::<S>::Skip] + Seq::<SinkAction<S>>::empty());
    assert(performed(r2.1) =~= Seq::<SinkAction<S>>::empty()) by {
        assert(r2.1.subrange(1, 1) =~= Seq::<SinkAction<S>>::empty());
        assert(r2.1[0] is Skip);
        assert(performed(Seq::<SinkAction<S>>::empty()) == Seq::<SinkAction<S>>::empty());
    }
    assert(r4.1 == seq![SinkAction::<S>::Finalize] + Seq::<SinkAction<S>>::empty());
    assert(performed(r4.1) =~= seq![SinkAction::<S>::Finalize]) by {
        assert(r4.1.subrange(1, 1) =~= Seq::<SinkAction<S>>::empty());
        assert(r4.1[0] is Finalize);
        assert(performed(Seq::<SinkAction<S>>::empty()) == Seq::<SinkAction<S>>::empty());
        assert(seq![SinkAction::<S>::Finalize] + Seq::<SinkAction<S>>::empty() =~= seq![SinkAction::<S>::Finalize]);
    }
    assert(received_ops(before) + Seq::<SinkAction<S>>::empty() =~= received_ops(before));
}

/// The decisions of a writer thread, which takes messages from a channel and
/// forwards them to a sink until the stream stops.
pub struct WriterLoop {
    phase: WriterPhase,
}

impl WriterLoop {
    pub closed spec fn phase_of(&self) -> WriterPhase {
        self.phase
    }

    /// A writer that has not received anything yet.
    pub fn new() -> (w: Self)
        ensures
            w.phase_of() == WriterPhase::Receiving,
    {
        WriterLoop { phase: WriterPhase::Receiving }
    }

    /// The current phase.
    pub fn phase(&self) -> (p: WriterPhase)
        ensures
            p == self.phase_of(),
    {
        self.phase
    }

    /// Whether the writer has finalized its sink and left its loop.
    pub fn is_finished(&self) -> (b: bool)
        ensures
            b == (self.phase_of() == WriterPhase::Finished),
    {
        match self.phase {
            WriterPhase::Finished => true,
            _ => false,
        }
    }

    /// Takes one event and says what the sink must do with it.
    pub fn step<S>(&mut self, event: WriterEvent<S>) -> (action: SinkAction<S>)
        ensures
            (final(self).phase_of(), action) == writer_step(old(self).phase_of(), event),
            action matches SinkAction::Write(v) ==> event == WriterEvent::Message(AudioMessage::Samples(v))
                && (old(self).phase_of() is Receiving || old(self).phase_of() is Draining),
            action is Flush <==> (old(self).phase_of() is Receiving
                && event == WriterEvent::<S>::Message(AudioMessage::Flush)),
            action is Finalize <==> (old(self).phase_of() is Draining && event is Exhausted),
            final(self).phase_of() is Finished <==> (old(self).phase_of() is Finished
                || (old(self).phase_of() is Draining && event is Exhausted)),
            old(self).phase_of() is Receiving && (event is Exhausted
                || event == WriterEvent::<S>::Message(AudioMessage::Stop)) ==> final(self).phase_of() is Draining,
            (old(self).phase_of() is Receiving || old(self).phase_of() is Draining)
                ==> (event matches WriterEvent::Message(AudioMessage::Samples(v)) ==> action == SinkAction::Write(v)),
    {
        match self.phase {
            WriterPhase::Receiving => match event {
                WriterEvent::Message(AudioMessage::Samples(v)) => SinkAction::Write(v),
                WriterEvent::Message(AudioMessage::Flush) => SinkAction::Flush,
                WriterEvent::Message(AudioMessage::Stop) => {
                    self.phase = WriterPhase::Draining;
                    SinkAction::Skip
                },
                WriterEvent::Exhausted => {
                    self.phase = WriterPhase::Draining;
                    SinkAction::Skip
                },
            },
            WriterPhase::Draining => match event {
                WriterEvent::Message(AudioMessage::Samples(v)) => SinkAction::Write(v),
                WriterEvent::Message(_) => SinkAction::Skip,
                WriterEvent::Exhausted => {
                    self.phase = WriterPhase::Finished;
                    SinkAction::Finalize
                },
            },
            WriterPhase::Finished => SinkAction::Skip,
            WriterPhase::Failed => SinkAction::Skip,
        }
    }

    /// A sink operation failed: the writer gives up, without finalizing the
    /// sink, and asks nothing more of it.
    pub fn sink_failed(&mut self)
        ensures
            final(self).phase_of() == WriterPhase::Failed,
    {
        self.phase = WriterPhase::Failed;
    }

    /// Whether the writer has left its loop, finished or failed.
    pub fn is_done(&self) -> (b: bool)
        ensures
            b == (self.phase_of() == WriterPhase::Finished || self.phase_of() == WriterPhase::Failed),
    {
        match self.phase {
            WriterPhase::Finished => true,
            WriterPhase::Failed => true,
            _ => false,
        }
    }
}

} // verus!
