use vstd::prelude::*;

verus! {

/// Number of samples the lock-free ring between the audio callback and the
/// drain loop can hold.
pub const RING_CAPACITY: usize = 4096 * 16;

/// Milliseconds the drain loop sleeps between two polls of the ring.
pub const DRAIN_INTERVAL_MS: u64 = 5;

/// Largest number of samples the drain loop takes from the ring at once.
pub const DRAIN_BATCH: usize = 1024;

/// Number of empty polls after which the drain loop sends an empty batch to
/// find out whether the writer is still there.
pub const IDLE_POLLS_PER_PROBE: u32 = 100;

/// The sample encodings an audio device can deliver.
#[derive(Debug, Clone, Copy, PartialEq, Eq, Structural)]
pub enum SampleFormat {
    I8,
    I16,
    I24,
    I32,
    I64,
    U8,
    U16,
    U24,
    U32,
    U64,
    F32,
    F64,
    DsdU8,
    DsdU16,
    DsdU32,
}

/// How captured samples are brought to 32-bit float: taken as they are,
/// scaled from signed 16-bit, or scaled and re-centred from unsigned 16-bit.
#[derive(Debug, Clone, Copy, PartialEq, Eq, Structural)]
pub enum SampleConversion {
    Float32,
    SignedInt16,
    UnsignedInt16,
}

/// A device delivers samples in an encoding that capture does not handle.
#[derive(Debug, Clone, Copy, PartialEq, Eq, Structural)]
pub struct UnsupportedSampleFormat {
    pub format: SampleFormat,
}

/// The conversion capture applies to a device's samples: 32-bit float,
/// signed 16-bit and unsigned 16-bit are handled, every other encoding is
/// refused.
pub fn input_conversion(format: SampleFormat) -> (r: Result<SampleConversion, UnsupportedSampleFormat>)
    ensures
        format == SampleFormat::F32 ==> r == Ok::<SampleConversion, UnsupportedSampleFormat>(SampleConversion::Float32),
        format == SampleFormat::I16 ==> r == Ok::<SampleConversion, UnsupportedSampleFormat>(SampleConversion::SignedInt16),
        format == SampleFormat::U16 ==> r == Ok::<SampleConversion, UnsupportedSampleFormat>(SampleConversion::UnsignedInt16),
        format != SampleFormat::F32 && format != SampleFormat::I16 && format != SampleFormat::U16
            ==> r == Err::<SampleConversion, UnsupportedSampleFormat>(UnsupportedSampleFormat { format }),
{
    match format {
        SampleFormat::F32 => Ok(SampleConversion::Float32),
        SampleFormat::I16 => Ok(SampleConversion::SignedInt16),
        SampleFormat::U16 => Ok(SampleConversion::UnsignedInt16),
        _ => Err(UnsupportedSampleFormat { format }),
    }
}

/// What the drain loop does after polling the ring. While recording: send
/// the samples it took as one batch without waiting (a full channel drops
/// the batch), send an empty batch as a probe, or just wait. Once capture is
/// paused: deliver the samples it took, waiting for room in the channel,
/// and, when the ring is found empty, send the stop and leave.
#[derive(Debug, Clone, Copy, PartialEq, Eq, Structural)]
pub enum StepKind {
    Forward(usize),
    Probe,
    Deliver(usize),
    Finish,
    Wait,
}

/// A decision of the drain loop with the samples it sends: for a batch,
/// the samples the poll took, in order; for a probe, nothing.
#[derive(Debug)]
pub struct DrainStep<T> {
    pub kind: StepKind,
    pub payload: Vec<T>,
}

/// The result of a send to the writer's channel (a blocking send is never
/// `Full`).
#[derive(Debug, Clone, Copy, PartialEq, Eq, Structural)]
pub enum SendOutcome {
    Delivered,
    Full,
    Disconnected,
}

/// What the drain loop does after a send: go on, report that a batch of
/// that many samples was dropped and go on, or leave the loop.
#[derive(Debug, Clone, Copy, PartialEq, Eq, Structural)]
pub enum AfterSend {
    Continue,
    Dropped(usize),
    Exit,
}

/// One poll that took `popped` samples: the idle counter after it and the
/// step taken. While recording, the counter counts empty polls and wraps to
/// zero when it reaches the probe interval; a non-empty poll leaves it as it
/// is. Once paused, every non-empty poll is delivered and the first empty
/// one finishes the stream.
pub open spec fn drain_poll(idle: nat, stopping: bool, popped: usize) -> (nat, StepKind) {
    if stopping {
        if popped > 0 {
            (idle, StepKind::Deliver(popped))
        } else {
            (idle, StepKind::Finish)
        }
    } else if popped > 0 {
        (idle, StepKind::Forward(popped))
    } else if idle + 1 >= IDLE_POLLS_PER_PROBE {
        (0, StepKind::Probe)
    } else {
        ((idle + 1) as nat, StepKind::Wait)
    }
}

/// What follows a send, for each step and outcome.
pub open spec fn drain_after_send(kind: StepKind, outcome: SendOutcome) -> AfterSend {
    match kind {
        StepKind::Wait => AfterSend::Continue,
        StepKind::Forward(n) => match outcome {
            SendOutcome::Delivered => AfterSend::Continue,
            SendOutcome::Full => AfterSend::Dropped(n),
            SendOutcome::Disconnected => AfterSend::Exit,
        },
        StepKind::Probe => match outcome {
            SendOutcome::Disconnected => AfterSend::Exit,
            _ => AfterSend::Continue,
        },
        StepKind::Deliver(n) => match outcome {
            SendOutcome::Delivered => AfterSend::Continue,
            SendOutcome::Full => AfterSend::Dropped(n),
            SendOutcome::Disconnected => AfterSend::Exit,
        },
        StepKind::Finish => AfterSend::Exit,
    }
}

/// The polls of a whole run from idle counter `idle`, each given by the
/// samples it took: the counter reached and, for each poll in order, the
/// step taken and the samples it sends.
pub open spec fn drain_run<T>(idle: nat, stopping: bool, polls: Seq<Seq<T>>) -> (nat, Seq<(StepKind, Seq<T>)>)
    decreases polls.len(),
{
    if polls.len() == 0 {
        (idle, Seq::empty())
    } else {
        let (next, kind) = drain_poll(idle, stopping, polls[0].len() as usize);
        let (last, rest) = drain_run(next, stopping, polls.subrange(1, polls.len() as int));
        (last, seq![(kind, polls[0])] + rest)
    }
}

/// Number of polls that took nothing.
pub open spec fn empty_polls<T>(polls: Seq<Seq<T>>) -> nat
    decreases polls.len(),
{
    if polls.len() == 0 {
        0
    } else {
        (if polls[0].len() == 0 { 1nat } else { 0nat }) + empty_polls(polls.subrange(1, polls.len() as int))
    }
}

/// The samples of the polls that took some, one batch per poll, in order.
pub open spec fn nonempty_polls<T>(polls: Seq<Seq<T>>) -> Seq<Seq<T>>
    decreases polls.len(),
{
    if polls.len() == 0 {
        Seq::empty()
    } else {
        let rest = nonempty_polls(polls.subrange(1, polls.len() as int));
        if polls[0].len() == 0 { rest } else { seq![polls[0]] + rest }
    }
}

/// Number of probes among the steps.
pub open spec fn probe_count<T>(steps: Seq<(StepKind, Seq<T>)>) -> nat
    decreases steps.len(),
{
    if steps.len() == 0 {
        0
    } else {
        (if steps[0].0 is Probe { 1nat } else { 0nat }) + probe_count(steps.subrange(1, steps.len() as int))
    }
}

/// The batches offered to the channel while recording, in order.
pub open spec fn forwarded<T>(steps: Seq<(StepKind, Seq<T>)>) -> Seq<Seq<T>>
    decreases steps.len(),
{
    if steps.len() == 0 {
        Seq::empty()
    } else {
        let rest = forwarded(steps.subrange(1, steps.len() as int));
        match steps[0].0 {
            StepKind::Forward(_) => seq![steps[0].1] + rest,
            _ => rest,
        }
    }
}

/// Polls that fit in the drain batch.
pub open spec fn polls_fit<T>(polls: Seq<Seq<T>>) -> bool {
    forall|i: int| 0 <= i < polls.len() ==> (#[trigger] polls[i]).len() <= DRAIN_BATCH
}

/// Over any run of polls while recording, starting from a counter below the
/// interval: every poll that took samples is offered as one batch holding
/// exactly those samples, in order, once; one probe is sent for every full
/// interval of empty polls, counted across non-empty polls and from the
/// starting counter; and the counter ends at the empty polls left over.
pub proof fn lemma_drain_recording<T>(idle: nat, polls: Seq<Seq<T>>)
    requires
        idle < IDLE_POLLS_PER_PROBE,
        polls_fit(polls),
    ensures
        drain_run(idle, false, polls).0 == (idle + empty_polls(polls)) % (IDLE_POLLS_PER_PROBE as nat),
        probe_count(drain_run(idle, false, polls).1) == (idle + empty_polls(polls)) / (IDLE_POLLS_PER_PROBE as nat),
        forwarded(drain_run(idle, false, polls).1) == nonempty_polls(polls),
    decreases polls.len(),
{
    if polls.len() > 0 {
        let tail = polls.subrange(1, polls.len() as int);
        assert(polls_fit(tail)) by {
            assert forall|i: int| 0 <= i < tail.len() implies (#[trigger] tail[i]).len() <= DRAIN_BATCH by {
                assert(tail[i] == polls[i + 1]);
            }
        }
        assert(polls[0].len() <= DRAIN_BATCH);
        let (next, kind) = drain_poll(idle, false, polls[0].len() as usize);
        lemma_drain_recording(next, tail);
        let steps = drain_run(idle, false, polls).1;
        let rest = drain_run(next, false, tail).1;
        assert(steps == seq![(kind, polls[0])] + rest);
        assert(steps.subrange(1, steps.len() as int) =~= rest);
        assert(steps[0] == (kind, polls[0]));
        let z = empty_polls(tail);
        if polls[0].len() == 0 {
            if idle + 1 >= IDLE_POLLS_PER_PROBE {
                assert(idle + 1 == 100);
                assert((idle + 1 + z) % 100 == z % 100) by (nonlinear_arith)
                    requires idle + 1 == 100;
                assert((idle + 1 + z) / 100 == 1 + z / 100) by (nonlinear_arith)
                    requires idle + 1 == 100;
            }
        }
    }
}

/// Once capture is paused, polls that keep finding samples followed by one
/// that finds the ring empty: each batch is delivered with exactly the
/// samples its poll took, in order, and then the stop is sent, after which
/// the loop leaves whatever the send's outcome.
pub proof fn lemma_drain_shutdown<T>(idle: nat, polls: Seq<Seq<T>>)
    requires
        polls_fit(polls),
        forall|i: int| 0 <= i < polls.len() ==> (#[trigger] polls[i]).len() > 0,
    ensures
        drain_run(idle, true, polls + seq![Seq::<T>::empty()]).1
            == polls.map_values(|p: Seq<T>| (StepKind::Deliver(p.len() as usize), p)) + seq![(StepKind::Finish, Seq::<T>::empty())],
        forall|outcome: SendOutcome| drain_after_send(StepKind::Finish, outcome) == AfterSend::Exit,
    decreases polls.len(),
{
    let all = polls + seq![Seq::<T>::empty()];
    let expected = polls.map_values(|p: Seq<T>| (StepKind::Deliver(p.len() as usize), p)) + seq![(StepKind::Finish, Seq::<T>::empty())];
    if polls.len() == 0 {
        assert(all =~= seq![Seq::<T>::empty()]);
        assert(all.subrange(1, 1) =~= Seq::<Seq<T>>::empty());
        assert(all[0].len() == 0);
        assert(drain_poll(idle, true, all[0].len() as usize).1 == StepKind::Finish);
        assert(drain_run(idle, true, all.subrange(1, 1)).1 == Seq::<(StepKind, Seq<T>)>::empty());
        assert(drain_run(idle, true, all).1 == seq![(StepKind::Finish, all[0])] + Seq::<(StepKind, Seq<T>)>::empty());
        assert(polls.map_values(|p: Seq<T>| (StepKind::Deliver(p.len() as usize), p)) =~= Seq::<(StepKind, Seq<T>)>::empty());
        assert(drain_run(idle, true, all).1 =~= expected);
    } else {
        let tail = polls.subrange(1, polls.len() as int);
        assert(polls_fit(tail)) by {
            assert forall|i: int| 0 <= i < tail.len() implies (#[trigger] tail[i]).len() <= DRAIN_BATCH by {
                assert(tail[i] == polls[i + 1]);
            }
        }
        assert(forall|i: int| 0 <= i < tail.len() ==> (#[trigger] tail[i]).len() > 0) by {
            assert forall|i: int| 0 <= i < tail.len() implies (#[trigger] tail[i]).len() > 0 by {
                assert(tail[i] == polls[i + 1]);
            }
        }
        lemma_drain_shutdown(idle, tail);
        assert(all.subrange(1, all.len() as int) =~= tail + seq![Seq::<T>::empty()]);
        assert(all[0] == polls[0]);
        let rest = drain_run(idle, true, tail + seq![Seq::<T>::empty()]).1;
        assert(drain_run(idle, true, all).1 == seq![(StepKind::Deliver(polls[0].len() as usize), polls[0])] + rest);
        assert(drain_run(idle, true, all).1 =~= expected);
    }
}

/// The decisions of a drain loop, which moves samples from the ring to the
/// writer's channel, watches while the ring stays empty whether the writer is
/// still there, and, once capture is paused, empties the ring into the
/// channel and then tells the writer to stop.
pub struct DrainLoop {
    idle_polls: u32,
    stopping: bool,
}

impl DrainLoop {
    #[verifier::type_invariant]
    spec fn counter_below_interval(self) -> bool {
        self.idle_polls < IDLE_POLLS_PER_PROBE
    }

    /// Empty polls counted since the last probe.
    pub closed spec fn idle_of(self) -> nat {
        self.idle_polls as nat
    }

    /// Whether capture has been paused and the ring is being emptied.
    pub closed spec fn stopping_of(self) -> bool {
        self.stopping
    }

    /// A loop that has not polled yet, recording.
    pub fn new() -> (d: Self)
        ensures
            d.idle_of() == 0,
            !d.stopping_of(),
    {
        DrainLoop { idle_polls: 0, stopping: false }
    }

    /// Empty polls counted since the last probe; always below the interval.
    pub fn idle_polls(&self) -> (n: u32)
        ensures
            n == self.idle_of(),
            n < IDLE_POLLS_PER_PROBE,
    {
        proof {
            use_type_invariant(self);
        }
        self.idle_polls
    }

    /// Whether capture has been paused and the ring is being emptied.
    pub fn is_stopping(&self) -> (b: bool)
        ensures
            b == self.stopping_of(),
    {
        self.stopping
    }

    /// Capture has been paused: no more samples will enter the ring.
    pub fn request_stop(&mut self)
        ensures
            final(self).stopping_of(),
            final(self).idle_of() == old(self).idle_of(),
    {
        proof {
            use_type_invariant(&*self);
        }
        self.stopping = true;
    }

    /// Takes one poll of the ring, which filled the first `popped` slots of
    /// `batch`, and decides what to send: the step of `drain_poll`, with the
    /// samples the poll took as the payload.
    pub fn on_popped<T: Copy>(&mut self, batch: &[T], popped: usize) -> (step: DrainStep<T>)
        requires
            popped <= batch@.len(),
        ensures
            (final(self).idle_of(), step.kind) == drain_poll(old(self).idle_of(), old(self).stopping_of(), popped),
            final(self).stopping_of() == old(self).stopping_of(),
            step.payload@ == batch@.subrange(0, popped as int),
            final(self).idle_of() < IDLE_POLLS_PER_PROBE,
            popped > 0 && !old(self).stopping_of() ==> step.kind == StepKind::Forward(popped)
                && final(self).idle_of() == old(self).idle_of(),
            popped > 0 && old(self).stopping_of() ==> step.kind == StepKind::Deliver(popped),
            popped == 0 && old(self).stopping_of() ==> step.kind == StepKind::Finish,
            popped == 0 && !old(self).stopping_of() && old(self).idle_of() + 1 < IDLE_POLLS_PER_PROBE
                ==> step.kind == StepKind::Wait && final(self).idle_of() == old(self).idle_of() + 1,
            popped == 0 && !old(self).stopping_of() && old(self).idle_of() + 1 == IDLE_POLLS_PER_PROBE
                ==> step.kind == StepKind::Probe && final(self).idle_of() == 0,
    {
        proof {
            use_type_invariant(&*self);
        }
        let mut payload: Vec<T> = Vec::with_capacity(popped);
        let mut i: usize = 0;
        while i < popped
            invariant
                popped <= batch@.len(),
                i <= popped,
                payload@ == batch@.subrange(0, i as int),
            decreases popped - i,
        {
            payload.push(batch[i]);
            i = i + 1;
            assert(payload@ =~= batch@.subrange(0, i as int));
        }
        let kind = if self.stopping {
            if popped > 0 {
                StepKind::Deliver(popped)
            } else {
                StepKind::Finish
            }
        } else if popped > 0 {
            StepKind::Forward(popped)
        } else if self.idle_polls + 1 >= IDLE_POLLS_PER_PROBE {
            self.idle_polls = 0;
            StepKind::Probe
        } else {
            self.idle_polls = self.idle_polls + 1;
            StepKind::Wait
        };
        DrainStep { kind, payload }
    }
}

/// Decides, from the step taken and the outcome of its send, whether the
/// drain loop goes on. A disconnected channel ends it, and so does the stop
/// once sent; a full channel drops a batch of samples (reported) or a probe
/// (silently).
pub fn after_send(kind: StepKind, outcome: SendOutcome) -> (r: AfterSend)
    ensures
        r == drain_after_send(kind, outcome),
        r is Exit <==> (kind is Finish || (outcome is Disconnected && !(kind is Wait))),
        r is Dropped <==> (outcome is Full && (kind is Forward || kind is Deliver)),
        outcome is Full ==> (kind matches StepKind::Forward(n) ==> r == AfterSend::Dropped(n)),
        outcome is Full ==> (kind matches StepKind::Deliver(n) ==> r == AfterSend::Dropped(n)),
        outcome is Delivered && !(kind is Finish) ==> r is Continue,
{
    match kind {
        StepKind::Wait => AfterSend::Continue,
        StepKind::Forward(n) => match outcome {
            SendOutcome::Delivered => AfterSend::Continue,
            SendOutcome::Full => AfterSend::Dropped(n),
            SendOutcome::Disconnected => AfterSend::Exit,
        },
        StepKind::Probe => match outcome {
            SendOutcome::Disconnected => AfterSend::Exit,
            _ => AfterSend::Continue,
        },
        StepKind::Deliver(n) => match outcome {
            SendOutcome::Delivered => AfterSend::Continue,
            SendOutcome::Full => AfterSend::Dropped(n),
            SendOutcome::Disconnected => AfterSend::Exit,
        },
        StepKind::Finish => AfterSend::Exit,
    }
}

} // verus!
