//! The send loop of a connection: take the next packet, encode it, write it, and begin again,
//! until there are no more packets or a write fails.
use vstd::prelude::*;

verus! {

/// What the loop is waiting for.
#[derive(Clone, Copy, Debug, PartialEq, Eq, Structural)]
pub enum SendPhase {
    /// The next packet.
    Awaiting,
    /// The encoding of a packet.
    Encoding,
    /// Word that the bytes were written.
    Writing,
    /// Nothing: it has ended.
    Stopped,
}

/// What the loop is told. `P` is a packet; `E` and `W` say why encoding and writing failed.
pub enum SendEvent<P, E, W> {
    /// The next packet, or `None` once there will be no more.
    Next(Option<P>),
    /// The outcome of encoding the packet.
    Encoded(Result<Vec<u8>, E>),
    /// The outcome of writing the bytes.
    Written(Result<(), W>),
}

/// Why the loop ended.
#[derive(Debug, PartialEq, Eq)]
pub enum SendStop<W> {
    /// There will be no more packets.
    NoMorePackets,
    /// The stream could not be written.
    WriteFailed(W),
}

/// What the loop wants done next.
pub enum SendAction<P, E, W> {
    /// Wait for the next packet.
    Await,
    /// Encode this packet.
    Encode(P),
    /// Leave out the packet that could not be encoded, and wait for the next.
    Skip(E),
    /// Write these bytes.
    Write(Vec<u8>),
    /// End.
    Stop(SendStop<W>),
}

impl SendPhase {
    /// Whether the event can occur in this phase.
    pub open spec fn expects<P, E, W>(self, event: SendEvent<P, E, W>) -> bool {
        match event {
            SendEvent::Next(_) => self == SendPhase::Awaiting,
            SendEvent::Encoded(_) => self == SendPhase::Encoding,
            SendEvent::Written(_) => self == SendPhase::Writing,
        }
    }
}

impl<P, E, W> SendEvent<P, E, W> {
    /// Why the event ends the loop, if it does.
    pub open spec fn ending(self) -> Option<SendStop<W>> {
        match self {
            SendEvent::Next(None) => Some(SendStop::NoMorePackets),
            SendEvent::Written(Err(error)) => Some(SendStop::WriteFailed(error)),
            _ => None,
        }
    }

    /// The phase that the event leads to. A packet that cannot be encoded does not end the
    /// loop.
    pub open spec fn leads_to(self) -> SendPhase {
        match self {
            SendEvent::Next(Some(_)) => SendPhase::Encoding,
            SendEvent::Next(None) => SendPhase::Stopped,
            SendEvent::Encoded(Ok(_)) => SendPhase::Writing,
            SendEvent::Encoded(Err(_)) => SendPhase::Awaiting,
            SendEvent::Written(Ok(_)) => SendPhase::Awaiting,
            SendEvent::Written(Err(_)) => SendPhase::Stopped,
        }
    }

    /// What the event asks for.
    pub open spec fn asks_for(self) -> SendAction<P, E, W> {
        match self {
            SendEvent::Next(Some(packet)) => SendAction::Encode(packet),
            SendEvent::Next(None) => SendAction::Stop(SendStop::NoMorePackets),
            SendEvent::Encoded(Ok(bytes)) => SendAction::Write(bytes),
            SendEvent::Encoded(Err(error)) => SendAction::Skip(error),
            SendEvent::Written(Ok(_)) => SendAction::Await,
            SendEvent::Written(Err(error)) => SendAction::Stop(SendStop::WriteFailed(error)),
        }
    }
}

/// The send loop of one connection.
pub struct SendLoop {
    phase: SendPhase,
}

impl SendLoop {
    /// What the loop is waiting for.
    pub closed spec fn phase(&self) -> SendPhase {
        self.phase
    }

    /// A loop that is about to wait for its first packet, and the action it begins with.
    pub fn start<P, E, W>() -> (started: (Self, SendAction<P, E, W>))
        ensures
            started.0.phase() == SendPhase::Awaiting,
            started.1 == SendAction::<P, E, W>::Await,
    {
        (SendLoop { phase: SendPhase::Awaiting }, SendAction::Await)
    }

    /// Takes up an event and says what is to be done next.
    pub fn handle<P, E, W>(&mut self, event: SendEvent<P, E, W>) -> (action: SendAction<P, E, W>)
        requires
            old(self).phase().expects(event),
        ensures
            final(self).phase() == event.leads_to(),
            action == event.asks_for(),
            event matches SendEvent::Next(Some(packet)) ==> final(self).phase()
                == SendPhase::Encoding && action == SendAction::<P, E, W>::Encode(packet),
            event == SendEvent::<P, E, W>::Next(None) ==> final(self).phase() == SendPhase::Stopped
                && action == SendAction::<P, E, W>::Stop(SendStop::NoMorePackets),
            event matches SendEvent::Encoded(Ok(bytes)) ==> final(self).phase()
                == SendPhase::Writing && action == SendAction::<P, E, W>::Write(bytes),
            event matches SendEvent::Encoded(Err(error)) ==> final(self).phase()
                == SendPhase::Awaiting && action == SendAction::<P, E, W>::Skip(error),
            event matches SendEvent::Written(Ok(_)) ==> final(self).phase() == SendPhase::Awaiting
                && action == SendAction::<P, E, W>::Await,
            event matches SendEvent::Written(Err(error)) ==> final(self).phase()
                == SendPhase::Stopped && action == SendAction::<P, E, W>::Stop(
                SendStop::WriteFailed(error),
            ),
    {
        match event {
            SendEvent::Next(Some(packet)) => {
                self.phase = SendPhase::Encoding;
                SendAction::Encode(packet)
            },
            SendEvent::Next(None) => {
                self.phase = SendPhase::Stopped;
                SendAction::Stop(SendStop::NoMorePackets)
            },
            SendEvent::Encoded(Ok(bytes)) => {
                self.phase = SendPhase::Writing;
                SendAction::Write(bytes)
            },
            SendEvent::Encoded(Err(error)) => {
                self.phase = SendPhase::Awaiting;
                SendAction::Skip(error)
            },
            SendEvent::Written(Ok(_)) => {
                self.phase = SendPhase::Awaiting;
                SendAction::Await
            },
            SendEvent::Written(Err(error)) => {
                self.phase = SendPhase::Stopped;
                SendAction::Stop(SendStop::WriteFailed(error))
            },
        }
    }
}

/// The phase of a new loop that has handled each of `events`.
pub open spec fn phase_after<P, E, W>(events: Seq<SendEvent<P, E, W>>) -> SendPhase {
    if events.len() == 0 {
        SendPhase::Awaiting
    } else {
        events.last().leads_to()
    }
}

/// Whether a new loop can be told `events`, one after the other.
pub open spec fn is_run<P, E, W>(events: Seq<SendEvent<P, E, W>>) -> bool {
    forall|i: int|
        0 <= i < events.len() ==> phase_after(events.take(i)).expects(#[trigger] events[i])
}

/// The encodings that were made in the course of `events`, in order.
pub open spec fn encoded<P, E, W>(events: Seq<SendEvent<P, E, W>>) -> Seq<Seq<u8>>
    decreases events.len(),
{
    if events.len() == 0 {
        Seq::empty()
    } else {
        let earlier = encoded(events.drop_last());
        match events.last() {
            SendEvent::Encoded(Ok(bytes)) => earlier.push(bytes@),
            _ => earlier,
        }
    }
}

/// The encodings that were written in the course of `events`, in order.
pub open spec fn written<P, E, W>(events: Seq<SendEvent<P, E, W>>) -> Seq<Seq<u8>>
    decreases events.len(),
{
    if events.len() < 2 {
        Seq::empty()
    } else {
        let earlier = written(events.drop_last());
        match (events[events.len() - 2], events.last()) {
            (SendEvent::Encoded(Ok(bytes)), SendEvent::Written(Ok(_))) => earlier.push(bytes@),
            _ => earlier,
        }
    }
}

/// How many packets were taken in the course of `events`.
pub open spec fn taken<P, E, W>(events: Seq<SendEvent<P, E, W>>) -> nat
    decreases events.len(),
{
    if events.len() == 0 {
        0
    } else {
        taken(events.drop_last()) + if events.last() matches SendEvent::Next(Some(_)) {
            1nat
        } else {
            0nat
        }
    }
}

/// How many packets could not be encoded in the course of `events`.
pub open spec fn skipped<P, E, W>(events: Seq<SendEvent<P, E, W>>) -> nat
    decreases events.len(),
{
    if events.len() == 0 {
        0
    } else {
        skipped(events.drop_last()) + if events.last() matches SendEvent::Encoded(Err(_)) {
            1nat
        } else {
            0nat
        }
    }
}

/// A run without its last event is a run, and the last event is expected there.
proof fn lemma_run_prefix<P, E, W>(events: Seq<SendEvent<P, E, W>>)
    requires
        is_run(events),
        events.len() > 0,
    ensures
        is_run(events.drop_last()),
        phase_after(events.drop_last()).expects(events.last()),
{
    let earlier = events.drop_last();
    assert(events.take(events.len() - 1) =~= earlier);
    assert(phase_after(events.take(events.len() - 1)).expects(events[events.len() - 1]));
    assert forall|i: int| 0 <= i < earlier.len() implies phase_after(earlier.take(i)).expects(
        #[trigger] earlier[i],
    ) by {
        assert(earlier[i] == events[i]);
        assert(earlier.take(i) =~= events.take(i));
    }
}

/// The loop ends when there are no more packets or a write fails, and for no other reason.
pub proof fn law_only_the_queue_or_the_stream_ends_it<P, E, W>(
    events: Seq<SendEvent<P, E, W>>,
)
    requires
        is_run(events),
    ensures
        forall|i: int| 0 <= i < events.len() - 1 ==> (#[trigger] events[i]).ending() is None,
        phase_after(events) == SendPhase::Stopped <==> events.len() > 0
            && events.last().ending() is Some,
    decreases events.len(),
{
    if events.len() > 0 {
        let earlier = events.drop_last();
        lemma_run_prefix(events);
        law_only_the_queue_or_the_stream_ends_it(earlier);
        assert forall|i: int| 0 <= i < events.len() - 1 implies (
        #[trigger] events[i]).ending() is None by {
            assert(earlier[i] == events[i]);
            if i == earlier.len() - 1 {
                assert(phase_after(earlier) != SendPhase::Stopped);
                assert(earlier.last() == events[i]);
            }
        }
    }
}

/// Encodings are written once each and in the order in which they were made. Only the last can
/// be outstanding: while it is written, or for good once its write has failed.
pub proof fn law_encodings_are_written_in_order<P, E, W>(events: Seq<SendEvent<P, E, W>>)
    requires
        is_run(events),
    ensures
        if phase_after(events) == SendPhase::Writing || (events.len() > 0
            && events.last() matches SendEvent::Written(Err(_))) {
            &&& encoded(events).len() > 0
            &&& written(events) == encoded(events).drop_last()
        } else {
            written(events) == encoded(events)
        },
    decreases events.len(),
{
    if events.len() > 0 {
        let earlier = events.drop_last();
        lemma_run_prefix(events);
        law_encodings_are_written_in_order(earlier);
        if earlier.len() > 0 {
            assert(earlier.last() == events[events.len() - 2]);
            lemma_run_prefix(earlier);
        }
    }
}

/// No packet is lost without a word: each one taken was encoded, was skipped because it could
/// not be encoded, or is the one being encoded.
pub proof fn law_every_packet_is_encoded_or_skipped<P, E, W>(events: Seq<SendEvent<P, E, W>>)
    requires
        is_run(events),
    ensures
        taken(events) == encoded(events).len() + skipped(events) + if phase_after(events)
            == SendPhase::Encoding {
            1nat
        } else {
            0nat
        },
    decreases events.len(),
{
    if events.len() > 0 {
        lemma_run_prefix(events);
        law_every_packet_is_encoded_or_skipped(events.drop_last());
    }
}

/// Whether `actions` is what a new loop returned on being told `events`, one action for each.
pub open spec fn is_transcript<P, E, W>(
    events: Seq<SendEvent<P, E, W>>,
    actions: Seq<SendAction<P, E, W>>,
) -> bool {
    &&& is_run(events)
    &&& actions.len() == events.len()
    &&& forall|i: int| 0 <= i < events.len() ==> #[trigger] actions[i] == events[i].asks_for()
}

/// The bytes that `actions` say to write, in order.
pub open spec fn writes<P, E, W>(actions: Seq<SendAction<P, E, W>>) -> Seq<Seq<u8>>
    decreases actions.len(),
{
    if actions.len() == 0 {
        Seq::empty()
    } else {
        let earlier = writes(actions.drop_last());
        match actions.last() {
            SendAction::Write(bytes) => earlier.push(bytes@),
            _ => earlier,
        }
    }
}

/// The packets that `actions` say to encode, in order.
pub open spec fn to_encode<P, E, W>(actions: Seq<SendAction<P, E, W>>) -> Seq<P>
    decreases actions.len(),
{
    if actions.len() == 0 {
        Seq::empty()
    } else {
        let earlier = to_encode(actions.drop_last());
        match actions.last() {
            SendAction::Encode(packet) => earlier.push(packet),
            _ => earlier,
        }
    }
}

/// The packets that were taken in the course of `events`, in order.
pub open spec fn packets<P, E, W>(events: Seq<SendEvent<P, E, W>>) -> Seq<P>
    decreases events.len(),
{
    if events.len() == 0 {
        Seq::empty()
    } else {
        let earlier = packets(events.drop_last());
        match events.last() {
            SendEvent::Next(Some(packet)) => earlier.push(packet),
            _ => earlier,
        }
    }
}

/// Every packet that is taken is encoded.
pub proof fn law_taken_packet_is_encoded<P, E, W>(packet: P)
    ensures
        SendEvent::<P, E, W>::Next(Some(packet)).leads_to() == SendPhase::Encoding,
        SendEvent::<P, E, W>::Next(Some(packet)).asks_for() == SendAction::<P, E, W>::Encode(
            packet,
        ),
{
}

/// Every encoding is written: just these bytes, however many.
pub proof fn law_encoding_is_written<P, E, W>(bytes: Vec<u8>)
    ensures
        SendEvent::<P, E, W>::Encoded(Ok(bytes)).leads_to() == SendPhase::Writing,
        SendEvent::<P, E, W>::Encoded(Ok(bytes)).asks_for() == SendAction::<P, E, W>::Write(bytes),
{
}

/// A packet that cannot be encoded is skipped, with the reason, and a written one is done with:
/// either way the next packet is awaited.
pub proof fn law_loop_goes_on_after_a_packet<P, E, W>(error: E)
    ensures
        SendEvent::<P, E, W>::Encoded(Err(error)).leads_to() == SendPhase::Awaiting,
        SendEvent::<P, E, W>::Encoded(Err(error)).asks_for() == SendAction::<P, E, W>::Skip(error),
        SendEvent::<P, E, W>::Written(Ok(())).leads_to() == SendPhase::Awaiting,
        SendEvent::<P, E, W>::Written(Ok(())).asks_for() == SendAction::<P, E, W>::Await,
{
}

/// The end of the packets and a failed write end the loop, and it says which of them did.
pub proof fn law_loop_ends_with_its_reason<P, E, W>(error: W)
    ensures
        SendEvent::<P, E, W>::Next(None).leads_to() == SendPhase::Stopped,
        SendEvent::<P, E, W>::Next(None).asks_for() == SendAction::<P, E, W>::Stop(
            SendStop::NoMorePackets,
        ),
        SendEvent::<P, E, W>::Written(Err(error)).leads_to() == SendPhase::Stopped,
        SendEvent::<P, E, W>::Written(Err(error)).asks_for() == SendAction::<P, E, W>::Stop(
            SendStop::WriteFailed(error),
        ),
{
}

/// A loop that awaits a packet takes any, one that encodes every outcome of encoding, and one
/// that writes every outcome of writing. One that has ended takes nothing.
pub proof fn law_every_outcome_is_taken<P, E, W>(phase: SendPhase, event: SendEvent<P, E, W>)
    ensures
        phase.expects(event) <==> match phase {
            SendPhase::Awaiting => event is Next,
            SendPhase::Encoding => event is Encoded,
            SendPhase::Writing => event is Written,
            SendPhase::Stopped => false,
        },
{
}

/// The packets that the loop says to encode are those that it took, and the bytes that it says
/// to write are the encodings that were made: all of them and in order.
pub proof fn law_actions_encode_and_write_everything<P, E, W>(
    events: Seq<SendEvent<P, E, W>>,
    actions: Seq<SendAction<P, E, W>>,
)
    requires
        is_transcript(events, actions),
    ensures
        to_encode(actions) == packets(events),
        writes(actions) == encoded(events),
    decreases events.len(),
{
    if events.len() > 0 {
        lemma_transcript_prefix(events, actions);
        law_actions_encode_and_write_everything(events.drop_last(), actions.drop_last());
    }
}

/// The loop says to stop at its end and nowhere else: with the last action, if it has ended.
pub proof fn law_actions_stop_only_at_the_end<P, E, W>(
    events: Seq<SendEvent<P, E, W>>,
    actions: Seq<SendAction<P, E, W>>,
)
    requires
        is_transcript(events, actions),
    ensures
        forall|i: int| 0 <= i < actions.len() - 1 ==> !(#[trigger] actions[i] is Stop),
        phase_after(events) == SendPhase::Stopped <==> actions.len() > 0 && actions.last() is Stop,
{
    law_only_the_queue_or_the_stream_ends_it(events);
    assert forall|i: int| 0 <= i < actions.len() - 1 implies !(#[trigger] actions[i] is Stop) by {
        assert(actions[i] == events[i].asks_for());
        assert(events[i].ending() is None);
    }
}

/// A transcript without its last pair is a transcript, and the last event is expected there and
/// asks for the last action.
proof fn lemma_transcript_prefix<P, E, W>(
    events: Seq<SendEvent<P, E, W>>,
    actions: Seq<SendAction<P, E, W>>,
)
    requires
        is_transcript(events, actions),
        events.len() > 0,
    ensures
        is_transcript(events.drop_last(), actions.drop_last()),
        phase_after(events.drop_last()).expects(events.last()),
        actions.last() == events.last().asks_for(),
{
    lemma_run_prefix(events);
    assert(actions[actions.len() - 1] == events[events.len() - 1].asks_for());
    let earlier = actions.drop_last();
    assert forall|i: int| 0 <= i < earlier.len() implies #[trigger] earlier[i]
        == events.drop_last()[i].asks_for() by {
        assert(earlier[i] == actions[i]);
    }
}

/// Whatever loops handled the events: the packets to encode in the actions that came back are
/// those that were taken, and the bytes to write are the encodings that were made, all of them
/// and in order.
pub proof fn law_handling_encodes_and_writes_everything<P, E, W>(
    loops: Seq<&mut SendLoop>,
    events: Seq<SendEvent<P, E, W>>,
    actions: Seq<SendAction<P, E, W>>,
)
    requires
        loops.len() == events.len(),
        actions.len() == events.len(),
        forall|i: int|
            0 <= i < events.len() ==> call_ensures(
                SendLoop::handle::<P, E, W>,
                (loops[i], events[i]),
                #[trigger] actions[i],
            ),
    ensures
        to_encode(actions) == packets(events),
        writes(actions) == encoded(events),
    decreases events.len(),
{
    if events.len() > 0 {
        let earlier = actions.drop_last();
        assert forall|i: int| 0 <= i < earlier.len() implies call_ensures(
            SendLoop::handle::<P, E, W>,
            (loops.drop_last()[i], events.drop_last()[i]),
            #[trigger] earlier[i],
        ) by {
            assert(earlier[i] == actions[i]);
        }
        law_handling_encodes_and_writes_everything(loops.drop_last(), events.drop_last(), earlier);
        let last = events.len() - 1;
        assert(call_ensures(
            SendLoop::handle::<P, E, W>,
            (loops[last], events[last]),
            actions[last],
        ));
    }
}

/// The loop starts as it goes on: it waits for a packet, as after each one that was written.
pub proof fn law_start_is_like_after_a_packet<P, E, W>(started: (SendLoop, SendAction<P, E, W>))
    requires
        call_ensures(SendLoop::start::<P, E, W>, (), started),
    ensures
        started.1 == SendAction::<P, E, W>::Await,
        started.1 == SendEvent::<P, E, W>::Written(Ok(())).asks_for(),
        started.0.phase() == SendPhase::Awaiting,
        started.0.phase() == SendEvent::<P, E, W>::Written(Ok(())).leads_to(),
{
}

} // verus!
