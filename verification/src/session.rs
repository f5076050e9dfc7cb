use vstd::prelude::*;
use crate::capture::{drain_run, lemma_drain_shutdown, polls_fit, StepKind};
use crate::pipeline::AudioMessage;
use crate::writer::{
    as_events, drained_ops, lemma_writer_session, performed, received_ops, writer_run, SinkAction,
    WriterEvent, WriterPhase,
};

verus! {

proof fn lemma_received_ops_append<S>(a: Seq<AudioMessage<S>>, b: Seq<AudioMessage<S>>)
    ensures
        received_ops(a + b) == received_ops(a) + received_ops(b),
    decreases a.len(),
{
    if a.len() == 0 {
        assert(a + b =~= b);
        assert(received_ops(a) + received_ops(b) =~= received_ops(b));
    } else {
        let ta = a.subrange(1, a.len() as int);
        assert((a + b).subrange(1, (a + b).len() as int) =~= ta + b);
        lemma_received_ops_append(ta, b);
        assert((a + b)[0] == a[0]);
        let r = received_ops(ta);
        match a[0] {
            AudioMessage::Samples(v) => {
                assert(seq![SinkAction::Write(v)] + (r + received_ops(b)) =~= (seq![SinkAction::Write(v)] + r) + received_ops(b));
            },
            AudioMessage::Flush => {
                assert(seq![SinkAction::<S>::Flush] + (r + received_ops(b)) =~= (seq![SinkAction::<S>::Flush] + r) + received_ops(b));
            },
            AudioMessage::Stop => {},
        }
    }
}

/// Batches only: one write each, with the batch's own samples.
proof fn lemma_received_ops_batches<S>(msgs: Seq<AudioMessage<S>>)
    requires
        forall|i: int| 0 <= i < msgs.len() ==> (#[trigger] msgs[i]) is Samples,
    ensures
        received_ops(msgs).len() == msgs.len(),
        forall|i: int| 0 <= i < msgs.len() ==>
            (#[trigger] received_ops(msgs)[i]) == SinkAction::Write(msgs[i]->Samples_0),
    decreases msgs.len(),
{
    if msgs.len() > 0 {
        let tail = msgs.subrange(1, msgs.len() as int);
        assert forall|i: int| 0 <= i < tail.len() implies (#[trigger] tail[i]) is Samples by {
            assert(tail[i] == msgs[i + 1]);
        }
        lemma_received_ops_batches(tail);
        let v = msgs[0]->Samples_0;
        assert(received_ops(msgs) == seq![SinkAction::Write(v)] + received_ops(tail));
        assert forall|i: int| 0 <= i < msgs.len() implies
            (#[trigger] received_ops(msgs)[i]) == SinkAction::Write(msgs[i]->Samples_0) by {
            if i > 0 {
                assert(tail[i - 1] == msgs[i]);
            }
        }
    }
}

/// The end of one stream, when every send reaches the writer and no sink
/// operation fails. The writer has received `recorded` while recording (no
/// stop among them). Once capture is paused, the drain loop's polls find the
/// samples `polls`, each non-empty, and then an empty ring; it decides to
/// deliver each of them as one batch and then to send the stop, and what it
/// sends (`sent`) is those batches and that stop. The writer then ends
/// finished, and its sink sees the operations for `recorded`, then one write
/// per poll holding exactly the samples that poll took, in order, then one
/// finalization and nothing else: every sample left in the ring at the pause
/// reaches the sink before it is finalized.
pub proof fn lemma_shutdown_reaches_sink<T>(
    idle: nat,
    recorded: Seq<AudioMessage<T>>,
    polls: Seq<Seq<T>>,
    sent: Seq<AudioMessage<T>>,
)
    requires
        forall|i: int| 0 <= i < recorded.len() ==> !(#[trigger] recorded[i] is Stop),
        polls_fit(polls),
        forall|i: int| 0 <= i < polls.len() ==> (#[trigger] polls[i]).len() > 0,
        sent.len() == polls.len() + 1,
        forall|i: int| 0 <= i < polls.len() ==>
            ((#[trigger] sent[i]) matches AudioMessage::Samples(v) && v@ == polls[i]),
        sent[polls.len() as int] is Stop,
    ensures
        drain_run(idle, true, polls + seq![Seq::<T>::empty()]).1
            == polls.map_values(|p: Seq<T>| (StepKind::Deliver(p.len() as usize), p)) + seq![(StepKind::Finish, Seq::<T>::empty())],
        ({
            let events = as_events(recorded + sent) + seq![WriterEvent::Exhausted];
            let ops = performed(writer_run(WriterPhase::Receiving, events).1);
            let n = received_ops(recorded).len();
            &&& writer_run(WriterPhase::Receiving, events).0 == WriterPhase::Finished
            &&& ops.len() == n + polls.len() + 1
            &&& ops.subrange(0, n as int) == received_ops(recorded)
            &&& forall|i: int| 0 <= i < polls.len() ==>
                ((#[trigger] ops[n + i]) matches SinkAction::Write(v) && v@ == polls[i])
            &&& ops[(n + polls.len()) as int] is Finalize
        }),
{
    lemma_drain_shutdown(idle, polls);
    let batches = sent.subrange(0, polls.len() as int);
    assert(sent =~= batches + seq![AudioMessage::<T>::Stop]) by {
        assert(sent[polls.len() as int] == AudioMessage::<T>::Stop);
    }
    let before = recorded + batches;
    assert forall|i: int| 0 <= i < before.len() implies !(#[trigger] before[i] is Stop) by {
        if i >= recorded.len() {
            assert(before[i] == sent[i - recorded.len()]);
        }
    }
    let stop: WriterEvent<T> = WriterEvent::Message(AudioMessage::Stop);
    let after = Seq::<AudioMessage<T>>::empty();
    lemma_writer_session(before, stop, after);
    let events = as_events(recorded + sent) + seq![WriterEvent::Exhausted];
    assert(recorded + sent =~= before + seq![AudioMessage::<T>::Stop]);
    assert(as_events(after) =~= Seq::<WriterEvent<T>>::empty());
    assert(as_events(before + seq![AudioMessage::<T>::Stop]) =~= as_events(before) + seq![stop]);
    assert(events =~= as_events(before) + seq![stop] + as_events(after) + seq![WriterEvent::Exhausted]);
    let ops = performed(writer_run(WriterPhase::Receiving, events).1);
    assert(drained_ops(after) == Seq::<SinkAction<T>>::empty());
    lemma_received_ops_append(recorded, batches);
    assert forall|i: int| 0 <= i < batches.len() implies (#[trigger] batches[i]) is Samples by {
        assert(batches[i] == sent[i]);
    }
    lemma_received_ops_batches(batches);
    let n = received_ops(recorded).len();
    let rb = received_ops(batches);
    assert(ops == received_ops(recorded) + rb + Seq::<SinkAction<T>>::empty() + seq![SinkAction::<T>::Finalize]);
    assert(ops =~= received_ops(recorded) + rb + seq![SinkAction::<T>::Finalize]);
    assert(ops.subrange(0, n as int) =~= received_ops(recorded));
    assert forall|i: int| 0 <= i < polls.len() implies
        ((#[trigger] ops[n + i]) matches SinkAction::Write(v) && v@ == polls[i]) by {
        assert(ops[n + i] == rb[i]);
        assert(batches[i] == sent[i]);
    }
}

} // verus!
