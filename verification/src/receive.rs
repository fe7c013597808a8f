//! The receive loop of a connection: read a chunk, decode it into a packet, deliver the
//! packet, and begin again, until something fails.
use vstd::pervasive::unreached;
use vstd::prelude::*;

verus! {

/// What the loop is waiting for.
#[derive(Clone, Copy, Debug, PartialEq, Eq, Structural)]
pub enum ReceivePhase {
    /// A chunk from the stream.
    Reading,
    /// The packet that a chunk holds.
    Decoding,
    /// Word that a packet was taken.
    Delivering,
    /// Nothing: it has ended.
    Stopped,
}

/// What the loop is told. `P` is a packet; `R` and `D` say why reading and decoding failed.
pub enum ReceiveEvent<P, R, D> {
    /// The outcome of a read: a chunk, or `None` once the peer has finished the stream.
    Read(Result<Option<Vec<u8>>, R>),
    /// The outcome of decoding the chunk.
    Decoded(Result<P, D>),
    /// Whether the packet was taken.
    Delivered(bool),
}

/// Why the loop ended.
#[derive(Debug, PartialEq, Eq)]
pub enum ReceiveStop<R, D> {
    /// The stream could not be read.
    ReadFailed(R),
    /// The peer sent more bytes at once than a packet may have.
    PacketTooLong { length: usize },
    /// What was read is not a packet.
    Undecodable(D),
    /// Nobody takes packets any more.
    ReceiverGone,
}

/// What the loop wants done next.
pub enum ReceiveAction<P, R, D> {
    /// Read a chunk of at most `max_length` bytes, in stream order only if `ordered`.
    Read { max_length: usize, ordered: bool },
    /// Decode these bytes into a packet.
    Decode(Vec<u8>),
    /// Deliver this packet.
    Deliver(P),
    /// End, and with it the connection.
    Stop(ReceiveStop<R, D>),
}

impl ReceivePhase {
    /// Whether the event can occur in this phase.
    ///
    /// The end of the stream is not among the events: the peer must keep it open.
    pub open spec fn expects<P, R, D>(self, event: ReceiveEvent<P, R, D>) -> bool {
        match event {
            ReceiveEvent::Read(read) => self == ReceivePhase::Reading && read != Ok::<
                Option<Vec<u8>>,
                R,
            >(None),
            ReceiveEvent::Decoded(_) => self == ReceivePhase::Decoding,
            ReceiveEvent::Delivered(_) => self == ReceivePhase::Delivering,
        }
    }
}

impl<P, R, D> ReceiveEvent<P, R, D> {
    /// Why the event ends a loop that takes packets of at most `limit` bytes, if it does.
    pub open spec fn failure(self, limit: usize) -> Option<ReceiveStop<R, D>> {
        match self {
            ReceiveEvent::Read(Err(error)) => Some(ReceiveStop::ReadFailed(error)),
            ReceiveEvent::Read(Ok(Some(chunk))) if chunk@.len() > limit => Some(
                ReceiveStop::PacketTooLong { length: chunk@.len() as usize },
            ),
            ReceiveEvent::Decoded(Err(error)) => Some(ReceiveStop::Undecodable(error)),
            ReceiveEvent::Delivered(false) => Some(ReceiveStop::ReceiverGone),
            _ => None,
        }
    }

    /// The phase that the event leads to in a loop that takes packets of at most `limit` bytes.
    pub open spec fn leads_to(self, limit: usize) -> ReceivePhase {
        if self.failure(limit) is Some {
            ReceivePhase::Stopped
        } else {
            match self {
                ReceiveEvent::Read(_) => ReceivePhase::Decoding,
                ReceiveEvent::Decoded(_) => ReceivePhase::Delivering,
                ReceiveEvent::Delivered(_) => ReceivePhase::Reading,
            }
        }
    }

    /// What the event asks for in a loop that takes packets of at most `limit` bytes.
    pub open spec fn asks_for(self, limit: usize) -> ReceiveAction<P, R, D>
        recommends
            self != ReceiveEvent::<P, R, D>::Read(Ok(None)),
    {
        match (self.failure(limit), self) {
            (Some(stop), _) => ReceiveAction::Stop(stop),
            (None, ReceiveEvent::Read(read)) => ReceiveAction::Decode(read->Ok_0->Some_0),
            (None, ReceiveEvent::Decoded(decoded)) => ReceiveAction::Deliver(decoded->Ok_0),
            (None, ReceiveEvent::Delivered(_)) => ReceiveAction::Read {
                max_length: limit,
                ordered: false,
            },
        }
    }
}

/// The receive loop of one connection.
pub struct ReceiveLoop {
    max_packet_length: usize,
    phase: ReceivePhase,
}

impl ReceiveLoop {
    /// The most bytes that a packet may have.
    pub closed spec fn limit(&self) -> usize {
        self.max_packet_length
    }

    /// What the loop is waiting for.
    pub closed spec fn phase(&self) -> ReceivePhase {
        self.phase
    }

    /// A loop that takes packets of at most `max_packet_length` bytes, and the action it
    /// begins with.
    pub fn start<P, R, D>(max_packet_length: usize) -> (started: (
        Self,
        ReceiveAction<P, R, D>,
    ))
        ensures
            started.0.limit() == max_packet_length,
            started.0.phase() == ReceivePhase::Reading,
            started.1 == (ReceiveAction::<P, R, D>::Read {
                max_length: max_packet_length,
                ordered: false,
            }),
    {
        (
            ReceiveLoop { max_packet_length, phase: ReceivePhase::Reading },
            ReceiveAction::Read { max_length: max_packet_length, ordered: false },
        )
    }

    /// Takes up an event and says what is to be done next.
    pub fn handle<P, R, D>(&mut self, event: ReceiveEvent<P, R, D>) -> (action: ReceiveAction<
        P,
        R,
        D,
    >)
        requires
            old(self).phase().expects(event),
        ensures
            final(self).limit() == old(self).limit(),
            final(self).phase() == event.leads_to(old(self).limit()),
            action == event.asks_for(old(self).limit()),
            event matches ReceiveEvent::Read(Ok(Some(chunk))) ==> if chunk@.len() <= old(
                self,
            ).limit() {
                final(self).phase() == ReceivePhase::Decoding && action == ReceiveAction::<
                    P,
                    R,
                    D,
                >::Decode(chunk)
            } else {
                final(self).phase() == ReceivePhase::Stopped && (action matches ReceiveAction::Stop(
                    ReceiveStop::PacketTooLong { length },
                ) && length == chunk@.len())
            },
            event matches ReceiveEvent::Read(Err(error)) ==> final(self).phase()
                == ReceivePhase::Stopped && action == ReceiveAction::<P, R, D>::Stop(
                ReceiveStop::ReadFailed(error),
            ),
            event matches ReceiveEvent::Decoded(Ok(packet)) ==> final(self).phase()
                == ReceivePhase::Delivering && action == ReceiveAction::<P, R, D>::Deliver(packet),
            event matches ReceiveEvent::Decoded(Err(error)) ==> final(self).phase()
                == ReceivePhase::Stopped && action == ReceiveAction::<P, R, D>::Stop(
                ReceiveStop::Undecodable(error),
            ),
            event == ReceiveEvent::<P, R, D>::Delivered(true) ==> final(self).phase()
                == ReceivePhase::Reading && (action matches ReceiveAction::Read {
                max_length,
                ordered,
            } && max_length == old(self).limit() && !ordered),
            event == ReceiveEvent::<P, R, D>::Delivered(false) ==> final(self).phase()
                == ReceivePhase::Stopped && action == ReceiveAction::<P, R, D>::Stop(
                ReceiveStop::ReceiverGone,
            ),
    {
        match event {
            ReceiveEvent::Read(Ok(Some(chunk))) => {
                let length: usize = chunk.len();
                if length > self.max_packet_length {
                    self.phase = ReceivePhase::Stopped;
                    ReceiveAction::Stop(ReceiveStop::PacketTooLong { length })
                } else {
                    self.phase = ReceivePhase::Decoding;
                    ReceiveAction::Decode(chunk)
                }
            },
            ReceiveEvent::Read(Ok(None)) => unreached(),
            ReceiveEvent::Read(Err(error)) => {
                self.phase = ReceivePhase::Stopped;
                ReceiveAction::Stop(ReceiveStop::ReadFailed(error))
            },
            ReceiveEvent::Decoded(Ok(packet)) => {
                self.phase = ReceivePhase::Delivering;
                ReceiveAction::Deliver(packet)
            },
            ReceiveEvent::Decoded(Err(error)) => {
                self.phase = ReceivePhase::Stopped;
                ReceiveAction::Stop(ReceiveStop::Undecodable(error))
            },
            ReceiveEvent::Delivered(taken) => {
                if taken {
                    self.phase = ReceivePhase::Reading;
                    ReceiveAction::Read { max_length: self.max_packet_length, ordered: false }
                } else {
                    self.phase = ReceivePhase::Stopped;
                    ReceiveAction::Stop(ReceiveStop::ReceiverGone)
                }
            },
        }
    }
}

/// The phase of a new loop that takes packets of at most `limit` bytes and has handled each of
/// `events`.
pub open spec fn phase_after<P, R, D>(
    limit: usize,
    events: Seq<ReceiveEvent<P, R, D>>,
) -> ReceivePhase {
    if events.len() == 0 {
        ReceivePhase::Reading
    } else {
        events.last().leads_to(limit)
    }
}

/// Whether such a loop can be told `events`, one after the other.
pub open spec fn is_run<P, R, D>(limit: usize, events: Seq<ReceiveEvent<P, R, D>>) -> bool {
    forall|i: int|
        0 <= i < events.len() ==> phase_after(limit, events.take(i)).expects(
            #[trigger] events[i],
        )
}

/// The packets that were decoded in the course of `events`, in order.
pub open spec fn decoded<P, R, D>(events: Seq<ReceiveEvent<P, R, D>>) -> Seq<P>
    decreases events.len(),
{
    if events.len() == 0 {
        Seq::empty()
    } else {
        let earlier = decoded(events.drop_last());
        match events.last() {
            ReceiveEvent::Decoded(Ok(packet)) => earlier.push(packet),
            _ => earlier,
        }
    }
}

/// The packets that were delivered and taken in the course of `events`, in order.
pub open spec fn delivered<P, R, D>(events: Seq<ReceiveEvent<P, R, D>>) -> Seq<P>
    decreases events.len(),
{
    if events.len() < 2 {
        Seq::empty()
    } else {
        let earlier = delivered(events.drop_last());
        match (events[events.len() - 2], events.last()) {
            (ReceiveEvent::Decoded(Ok(packet)), ReceiveEvent::Delivered(true)) => earlier.push(
                packet,
            ),
            _ => earlier,
        }
    }
}

/// A run without its last event is a run, and the last event is expected there.
proof fn lemma_run_prefix<P, R, D>(limit: usize, events: Seq<ReceiveEvent<P, R, D>>)
    requires
        is_run(limit, events),
        events.len() > 0,
    ensures
        is_run(limit, events.drop_last()),
        phase_after(limit, events.drop_last()).expects(events.last()),
{
    let earlier = events.drop_last();
    assert(events.take(events.len() - 1) =~= earlier);
    assert(phase_after(limit, events.take(events.len() - 1)).expects(events[events.len() - 1]));
    assert forall|i: int| 0 <= i < earlier.len() implies phase_after(
        limit,
        earlier.take(i),
    ).expects(#[trigger] earlier[i]) by {
        assert(earlier[i] == events[i]);
        assert(earlier.take(i) =~= events.take(i));
    }
}

/// The loop ends with the first event that is a failure, and with no other.
pub proof fn law_first_failure_ends_it<P, R, D>(
    limit: usize,
    events: Seq<ReceiveEvent<P, R, D>>,
)
    requires
        is_run(limit, events),
    ensures
        forall|i: int|
            0 <= i < events.len() - 1 ==> (#[trigger] events[i]).failure(limit) is None,
        phase_after(limit, events) == ReceivePhase::Stopped <==> events.len() > 0
            && events.last().failure(limit) is Some,
    decreases events.len(),
{
    if events.len() > 0 {
        let earlier = events.drop_last();
        lemma_run_prefix(limit, events);
        law_first_failure_ends_it(limit, earlier);
        assert forall|i: int| 0 <= i < events.len() - 1 implies (#[trigger] events[i]).failure(
            limit,
        ) is None by {
            assert(earlier[i] == events[i]);
            if i == earlier.len() - 1 {
                assert(phase_after(limit, earlier) != ReceivePhase::Stopped);
                assert(earlier.last() == events[i]);
            }
        }
    }
}

/// Packets are delivered once each and in the order in which they were decoded. A loop that
/// reads or decodes owes none; one that delivers owes the last; one that has ended owes the
/// last only if that was not taken.
pub proof fn law_packets_are_delivered_in_order<P, R, D>(
    limit: usize,
    events: Seq<ReceiveEvent<P, R, D>>,
)
    requires
        is_run(limit, events),
    ensures
        if phase_after(limit, events) == ReceivePhase::Delivering || (events.len() > 0
            && events.last() == ReceiveEvent::<P, R, D>::Delivered(false)) {
            &&& decoded(events).len() > 0
            &&& delivered(events) == decoded(events).drop_last()
        } else {
            delivered(events) == decoded(events)
        },
    decreases events.len(),
{
    if events.len() > 0 {
        let earlier = events.drop_last();
        lemma_run_prefix(limit, events);
        law_packets_are_delivered_in_order(limit, earlier);
        if earlier.len() > 0 {
            assert(earlier.last() == events[events.len() - 2]);
            lemma_run_prefix(limit, earlier);
        }
    }
}

/// Every packet is decoded from one chunk, the one read just before, and that chunk is no
/// longer than a packet may be.
pub proof fn law_decoded_chunk_is_within_the_limit<P, R, D>(
    limit: usize,
    events: Seq<ReceiveEvent<P, R, D>>,
)
    requires
        is_run(limit, events),
        events.len() > 0,
        events.last() is Decoded,
    ensures
        events.len() > 1,
        events[events.len() - 2] matches ReceiveEvent::Read(Ok(Some(chunk))) && chunk@.len()
            <= limit && events[events.len() - 2].asks_for(limit) == ReceiveAction::<
            P,
            R,
            D,
        >::Decode(chunk),
{
    let earlier = events.drop_last();
    lemma_run_prefix(limit, events);
    if earlier.len() > 0 {
        lemma_run_prefix(limit, earlier);
        assert(earlier.last() == events[events.len() - 2]);
    }
}

/// Whether no beginning of `encoding` that has at most `limit` bytes decodes into a packet.
pub open spec fn beginnings_do_not_decode<P>(
    decode: spec_fn(Seq<u8>) -> Option<P>,
    encoding: Seq<u8>,
    limit: usize,
) -> bool {
    forall|n: int| 0 <= n <= limit ==> decode(#[trigger] encoding.take(n)) is None
}

/// A peer that exceeds the maximum packet length is disconnected, and its packet is not
/// delivered. Whatever part of a packet that is longer than the limit is read first, from its
/// beginning, the loop ends on it: at once if that part is itself over the limit, and otherwise
/// because it is only a beginning of the packet, which does not decode.
pub proof fn law_oversized_packet_disconnects<P, R, D>(
    limit: usize,
    decode: spec_fn(Seq<u8>) -> Option<P>,
    encoding: Seq<u8>,
    read: ReceiveEvent<P, R, D>,
    result: ReceiveEvent<P, R, D>,
)
    requires
        encoding.len() > limit,
        beginnings_do_not_decode(decode, encoding, limit),
        read matches ReceiveEvent::Read(Ok(Some(chunk))) && chunk@.is_prefix_of(encoding),
        result matches ReceiveEvent::Decoded(packet) && (packet is Ok <==> decode(
            read->Read_0->Ok_0->Some_0@,
        ) is Some),
    ensures
        if read.asks_for(limit) is Decode {
            result.leads_to(limit) == ReceivePhase::Stopped && result.asks_for(limit) is Stop
        } else {
            read.leads_to(limit) == ReceivePhase::Stopped && read.asks_for(limit) is Stop
        },
{
    let chunk = read->Read_0->Ok_0->Some_0@;
    if chunk.len() <= limit {
        assert(encoding.take(chunk.len() as int) =~= chunk);
    }
}

/// Whether `actions` is what a new loop that takes packets of at most `limit` bytes returned on
/// being told `events`, one action for each.
pub open spec fn is_transcript<P, R, D>(
    limit: usize,
    events: Seq<ReceiveEvent<P, R, D>>,
    actions: Seq<ReceiveAction<P, R, D>>,
) -> bool {
    &&& is_run(limit, events)
    &&& actions.len() == events.len()
    &&& forall|i: int|
        0 <= i < events.len() ==> #[trigger] actions[i] == events[i].asks_for(limit)
}

/// The packets that `actions` say to deliver, in order.
pub open spec fn deliveries<P, R, D>(actions: Seq<ReceiveAction<P, R, D>>) -> Seq<P>
    decreases actions.len(),
{
    if actions.len() == 0 {
        Seq::empty()
    } else {
        let earlier = deliveries(actions.drop_last());
        match actions.last() {
            ReceiveAction::Deliver(packet) => earlier.push(packet),
            _ => earlier,
        }
    }
}

/// The bytes that `actions` say to decode, in order.
pub open spec fn decodings<P, R, D>(actions: Seq<ReceiveAction<P, R, D>>) -> Seq<Seq<u8>>
    decreases actions.len(),
{
    if actions.len() == 0 {
        Seq::empty()
    } else {
        let earlier = decodings(actions.drop_last());
        match actions.last() {
            ReceiveAction::Decode(bytes) => earlier.push(bytes@),
            _ => earlier,
        }
    }
}

/// The chunks of at most `limit` bytes that were read in the course of `events`, in order.
pub open spec fn chunks_within<P, R, D>(
    limit: usize,
    events: Seq<ReceiveEvent<P, R, D>>,
) -> Seq<Seq<u8>>
    decreases events.len(),
{
    if events.len() == 0 {
        Seq::empty()
    } else {
        let earlier = chunks_within(limit, events.drop_last());
        match events.last() {
            ReceiveEvent::Read(Ok(Some(chunk))) if chunk@.len() <= limit => earlier.push(chunk@),
            _ => earlier,
        }
    }
}

/// A chunk ends the loop if and only if it has more bytes than a packet may have. Any other is
/// decoded, whole and as it is.
pub proof fn law_chunk_is_decoded_unless_over_the_limit<P, R, D>(limit: usize, chunk: Vec<u8>)
    ensures
        chunk@.len() <= limit ==> {
            let read = ReceiveEvent::<P, R, D>::Read(Ok(Some(chunk)));
            &&& read.leads_to(limit) == ReceivePhase::Decoding
            &&& read.asks_for(limit) == ReceiveAction::<P, R, D>::Decode(chunk)
        },
        chunk@.len() > limit ==> {
            let read = ReceiveEvent::<P, R, D>::Read(Ok(Some(chunk)));
            &&& read.leads_to(limit) == ReceivePhase::Stopped
            &&& read.asks_for(limit) matches ReceiveAction::Stop(
                ReceiveStop::PacketTooLong { length },
            ) && length == chunk@.len()
        },
{
    assert(chunk@.len() == chunk.len());
}

/// Every packet that was decoded is delivered, whatever the limit.
pub proof fn law_decoded_packet_is_delivered<P, R, D>(limit: usize, packet: P)
    ensures
        ReceiveEvent::<P, R, D>::Decoded(Ok(packet)).leads_to(limit) == ReceivePhase::Delivering,
        ReceiveEvent::<P, R, D>::Decoded(Ok(packet)).asks_for(limit) == ReceiveAction::<
            P,
            R,
            D,
        >::Deliver(packet),
{
}

/// Once a packet was taken the loop reads on: by chunks of at most the limit, in whatever order
/// they arrive.
pub proof fn law_taken_packet_leads_to_the_next_read<P, R, D>(limit: usize)
    ensures
        ReceiveEvent::<P, R, D>::Delivered(true).leads_to(limit) == ReceivePhase::Reading,
        ReceiveEvent::<P, R, D>::Delivered(true).asks_for(limit) matches ReceiveAction::Read {
            max_length,
            ordered,
        } && max_length == limit && !ordered,
{
}

/// A failure to read, to decode or to deliver ends the loop, with just that failure.
pub proof fn law_failure_is_what_the_loop_ends_with<P, R, D>(
    limit: usize,
    read_error: R,
    decode_error: D,
)
    ensures
        ReceiveEvent::<P, R, D>::Read(Err(read_error)).leads_to(limit) == ReceivePhase::Stopped,
        ReceiveEvent::<P, R, D>::Read(Err(read_error)).asks_for(limit) == ReceiveAction::<
            P,
            R,
            D,
        >::Stop(ReceiveStop::ReadFailed(read_error)),
        ReceiveEvent::<P, R, D>::Decoded(Err(decode_error)).leads_to(limit)
            == ReceivePhase::Stopped,
        ReceiveEvent::<P, R, D>::Decoded(Err(decode_error)).asks_for(limit) == ReceiveAction::<
            P,
            R,
            D,
        >::Stop(ReceiveStop::Undecodable(decode_error)),
        ReceiveEvent::<P, R, D>::Delivered(false).leads_to(limit) == ReceivePhase::Stopped,
        ReceiveEvent::<P, R, D>::Delivered(false).asks_for(limit) == ReceiveAction::<
            P,
            R,
            D,
        >::Stop(ReceiveStop::ReceiverGone),
{
}

/// A loop that reads takes every outcome of a read but the end of the stream, one that decodes
/// every outcome of decoding, and one that delivers either answer. One that has ended takes
/// nothing.
pub proof fn law_every_outcome_is_taken<P, R, D>(phase: ReceivePhase, event: ReceiveEvent<P, R, D>)
    ensures
        phase.expects(event) <==> match phase {
            ReceivePhase::Reading => event matches ReceiveEvent::Read(read) && (read matches Ok(
                chunk,
            ) ==> chunk is Some),
            ReceivePhase::Decoding => event is Decoded,
            ReceivePhase::Delivering => event is Delivered,
            ReceivePhase::Stopped => false,
        },
{
    if let ReceiveEvent::Read(read) = event {
        assert(read == Ok::<Option<Vec<u8>>, R>(None) <==> (read is Ok && read->Ok_0 is None));
    }
}

/// The packets that the loop says to deliver are those that were decoded, all of them and in
/// order.
pub proof fn law_actions_deliver_every_packet<P, R, D>(
    limit: usize,
    events: Seq<ReceiveEvent<P, R, D>>,
    actions: Seq<ReceiveAction<P, R, D>>,
)
    requires
        is_transcript(limit, events, actions),
    ensures
        deliveries(actions) == decoded(events),
    decreases events.len(),
{
    if events.len() > 0 {
        lemma_transcript_prefix(limit, events, actions);
        law_actions_deliver_every_packet(limit, events.drop_last(), actions.drop_last());
    }
}

/// The bytes that the loop says to decode are the chunks that were read and are no longer than a
/// packet may be, all of them and in order.
pub proof fn law_actions_decode_every_chunk<P, R, D>(
    limit: usize,
    events: Seq<ReceiveEvent<P, R, D>>,
    actions: Seq<ReceiveAction<P, R, D>>,
)
    requires
        is_transcript(limit, events, actions),
    ensures
        decodings(actions) == chunks_within(limit, events),
    decreases events.len(),
{
    if events.len() > 0 {
        lemma_transcript_prefix(limit, events, actions);
        law_actions_decode_every_chunk(limit, events.drop_last(), actions.drop_last());
    }
}

/// The loop says to stop at its end and nowhere else: with the last action, if it has ended.
pub proof fn law_actions_stop_only_at_the_end<P, R, D>(
    limit: usize,
    events: Seq<ReceiveEvent<P, R, D>>,
    actions: Seq<ReceiveAction<P, R, D>>,
)
    requires
        is_transcript(limit, events, actions),
    ensures
        forall|i: int| 0 <= i < actions.len() - 1 ==> !(#[trigger] actions[i] is Stop),
        phase_after(limit, events) == ReceivePhase::Stopped <==> actions.len() > 0
            && actions.last() is Stop,
{
    law_first_failure_ends_it(limit, events);
    assert forall|i: int| 0 <= i < actions.len() - 1 implies !(#[trigger] actions[i] is Stop) by {
        assert(actions[i] == events[i].asks_for(limit));
        assert(events[i].failure(limit) is None);
    }
}

/// A transcript without its last pair is a transcript, and the last event is expected there and
/// asks for the last action.
proof fn lemma_transcript_prefix<P, R, D>(
    limit: usize,
    events: Seq<ReceiveEvent<P, R, D>>,
    actions: Seq<ReceiveAction<P, R, D>>,
)
    requires
        is_transcript(limit, events, actions),
        events.len() > 0,
    ensures
        is_transcript(limit, events.drop_last(), actions.drop_last()),
        phase_after(limit, events.drop_last()).expects(events.last()),
        actions.last() == events.last().asks_for(limit),
{
    lemma_run_prefix(limit, events);
    assert(actions[actions.len() - 1] == events[events.len() - 1].asks_for(limit));
    let earlier = actions.drop_last();
    assert forall|i: int| 0 <= i < earlier.len() implies #[trigger] earlier[i]
        == events.drop_last()[i].asks_for(limit) by {
        assert(earlier[i] == actions[i]);
    }
}

/// Whatever loops handled the events, and whatever their limits: the packets in the actions that
/// came back are those that were decoded, all of them and in order.
pub proof fn law_handling_delivers_every_packet<P, R, D>(
    loops: Seq<&mut ReceiveLoop>,
    events: Seq<ReceiveEvent<P, R, D>>,
    actions: Seq<ReceiveAction<P, R, D>>,
)
    requires
        loops.len() == events.len(),
        actions.len() == events.len(),
        forall|i: int|
            0 <= i < events.len() ==> call_ensures(
                ReceiveLoop::handle::<P, R, D>,
                (loops[i], events[i]),
                #[trigger] actions[i],
            ),
    ensures
        deliveries(actions) == decoded(events),
    decreases events.len(),
{
    if events.len() > 0 {
        let earlier = actions.drop_last();
        assert forall|i: int| 0 <= i < earlier.len() implies call_ensures(
            ReceiveLoop::handle::<P, R, D>,
            (loops.drop_last()[i], events.drop_last()[i]),
            #[trigger] earlier[i],
        ) by {
            assert(earlier[i] == actions[i]);
        }
        law_handling_delivers_every_packet(loops.drop_last(), events.drop_last(), earlier);
        let last = events.len() - 1;
        assert(call_ensures(
            ReceiveLoop::handle::<P, R, D>,
            (loops[last], events[last]),
            actions[last],
        ));
    }
}

/// Whatever loops with the same limit handled the events: the bytes to decode in the actions
/// that came back are the chunks of at most that many bytes that were read, all of them and in
/// order.
pub proof fn law_handling_decodes_every_chunk<P, R, D>(
    limit: usize,
    loops: Seq<&mut ReceiveLoop>,
    events: Seq<ReceiveEvent<P, R, D>>,
    actions: Seq<ReceiveAction<P, R, D>>,
)
    requires
        loops.len() == events.len(),
        actions.len() == events.len(),
        forall|i: int|
            0 <= i < events.len() ==> call_ensures(
                ReceiveLoop::handle::<P, R, D>,
                (loops[i], events[i]),
                #[trigger] actions[i],
            ) && loops[i].limit() == limit && loops[i].phase().expects(events[i]),
    ensures
        decodings(actions) == chunks_within(limit, events),
    decreases events.len(),
{
    if events.len() > 0 {
        let earlier = actions.drop_last();
        assert forall|i: int| 0 <= i < earlier.len() implies call_ensures(
            ReceiveLoop::handle::<P, R, D>,
            (loops.drop_last()[i], events.drop_last()[i]),
            #[trigger] earlier[i],
        ) && loops.drop_last()[i].limit() == limit && loops.drop_last()[i].phase().expects(
            events.drop_last()[i],
        ) by {
            assert(earlier[i] == actions[i]);
        }
        law_handling_decodes_every_chunk(limit, loops.drop_last(), events.drop_last(), earlier);
        let last = events.len() - 1;
        assert(call_ensures(
            ReceiveLoop::handle::<P, R, D>,
            (loops[last], events[last]),
            actions[last],
        ));
    }
}

/// Every read is like the first: of at most as many bytes as the loop was started with, in
/// whatever order they arrive.
pub proof fn law_every_read_is_like_the_first<P, R, D>(
    limit: usize,
    started: (ReceiveLoop, ReceiveAction<P, R, D>),
    event: ReceiveEvent<P, R, D>,
)
    requires
        call_ensures(ReceiveLoop::start::<P, R, D>, (limit,), started),
        event.asks_for(started.0.limit()) is Read,
    ensures
        started.0.limit() == limit,
        started.0.phase() == ReceivePhase::Reading,
        event.asks_for(started.0.limit()) == started.1,
        started.1 matches ReceiveAction::Read { max_length, ordered } && max_length == limit
            && !ordered,
{
}

} // verus!
