//! The accept loop of a server. Three handlers work together: one listens, one waits for
//! handshakes, one waits for the first stream of each connection. The loop passes a connection
//! from one to the next, until it comes out as a socket.
use quinn::ServerConfig;
use vstd::pervasive::unreached;
use vstd::prelude::*;
use vstd::seq_lib::group_to_multiset_ensures;

use crate::address::SocketAddr;
use crate::incoming::{IncomingAction, IncomingEvent, IncomingHandler, IncomingState, NetworkError};
use crate::pending::{PendingEvent, PendingHandler, PendingStep, Wait};
use crate::settings::ServerNetworkSettings;
use crate::socket::{new_connection_to_bi_connection, socket_of};

verus! {

/// What the endpoint of a server is set up with.
pub struct Listen {
    /// The TLS and transport configuration.
    pub config: ServerConfig,
    /// The address to listen at.
    pub addr: SocketAddr,
}

/// A connection whose handshake succeeded, and the streams that its peer opens on it.
pub struct NewConnection<K, B> {
    pub connection: K,
    pub streams: B,
}

/// What the loop waits for: a connection from listening, the end of one of the handshakes, or
/// the first stream of one of the new connections.
pub struct AcceptWait<C, K, B> {
    /// The handler that listens. It is given back when the wait is over.
    pub incoming: IncomingHandler,
    /// The handshakes that go on, if any.
    pub connecting: Wait<C>,
    /// The connections without a stream, if any.
    pub opening: Wait<NewConnection<K, B>>,
}

/// What ended a wait. Each gives back the handshakes and the connections without a stream, as
/// they were handed out.
pub enum AcceptEvent<C, K, B, E, S, R, F> {
    /// Listening yielded a connection, or none.
    Listened {
        connection: Option<C>,
        connecting: Vec<C>,
        opening: Vec<NewConnection<K, B>>,
    },
    /// The handshake at `index` ended.
    HandshakeEnded {
        index: usize,
        outcome: Result<NewConnection<K, B>, E>,
        connecting: Vec<C>,
        opening: Vec<NewConnection<K, B>>,
    },
    /// The streams of the connection at `index` yielded their first, a failure, or none.
    StreamYielded {
        index: usize,
        next: Option<Result<(S, R), F>>,
        connecting: Vec<C>,
        opening: Vec<NewConnection<K, B>>,
    },
}

/// What the loop wants done before it goes on.
pub enum AcceptAction<K, S, R> {
    /// Nothing: it is ready for the next wait.
    Nothing,
    /// Report this failure.
    Report(NetworkError),
    /// Publish this socket.
    Publish((K, S, R)),
}

/// A sequence without the element at `index`, whose place the last element has taken.
pub open spec fn swap_removed<T>(s: Seq<T>, index: int) -> Seq<T> {
    s.update(index, s.last()).drop_last()
}

impl<C, K, B, E, S, R, F> AcceptEvent<C, K, B, E, S, R, F> {
    /// Whether the event is about an entry that was waited for.
    ///
    /// The streams of a connection do not come to an end: the server never closes it.
    pub open spec fn is_valid(self) -> bool {
        match self {
            AcceptEvent::Listened { .. } => true,
            AcceptEvent::HandshakeEnded { index, outcome: _, connecting, opening: _ } => index
                < connecting@.len(),
            AcceptEvent::StreamYielded { index, next, connecting: _, opening } => index
                < opening@.len() && next is Some,
        }
    }

    /// The handshakes that were waited for.
    pub open spec fn waited_connecting(self) -> Seq<C> {
        match self {
            AcceptEvent::Listened { connection: _, connecting, opening: _ } => connecting@,
            AcceptEvent::HandshakeEnded { index: _, outcome: _, connecting, opening: _ } => {
                connecting@
            },
            AcceptEvent::StreamYielded { index: _, next: _, connecting, opening: _ } => connecting@,
        }
    }

    /// The connections whose first stream was waited for.
    pub open spec fn waited_opening(self) -> Seq<NewConnection<K, B>> {
        match self {
            AcceptEvent::Listened { connection: _, connecting: _, opening } => opening@,
            AcceptEvent::HandshakeEnded { index: _, outcome: _, connecting: _, opening } => {
                opening@
            },
            AcceptEvent::StreamYielded { index: _, next: _, connecting: _, opening } => opening@,
        }
    }

    /// The handshakes that go on after the event: a connection that listening yielded joins
    /// them, and one that ended leaves.
    pub open spec fn connecting(self) -> Seq<C> {
        match self {
            AcceptEvent::Listened { connection: Some(connection), connecting, opening: _ } => {
                connecting@.push(connection)
            },
            AcceptEvent::HandshakeEnded { index, outcome: _, connecting, opening: _ } => {
                swap_removed(connecting@, index as int)
            },
            _ => self.waited_connecting(),
        }
    }

    /// The connections without a stream after the event: one whose handshake succeeded joins
    /// them, and one whose streams yielded leaves.
    pub open spec fn opening(self) -> Seq<NewConnection<K, B>> {
        match self {
            AcceptEvent::HandshakeEnded { index: _, outcome: Ok(new), connecting: _, opening } => {
                opening@.push(new)
            },
            AcceptEvent::StreamYielded { index, next: _, connecting: _, opening } => {
                swap_removed(opening@, index as int)
            },
            _ => self.waited_opening(),
        }
    }

    /// The state of the handler that listens after the event.
    pub open spec fn incoming(self) -> IncomingState {
        match self {
            AcceptEvent::Listened { connection: None, connecting: _, opening: _ } => {
                IncomingState::Reporting
            },
            _ => IncomingState::Listening,
        }
    }

    /// The socket that the event completes: the connection whose streams yielded, with both
    /// directions of its first stream.
    pub open spec fn socket(self) -> Option<(K, S, R)> {
        match self {
            AcceptEvent::StreamYielded { index, next: Some(Ok((send, recv))), connecting: _, opening }
            => Some((opening@[index as int].connection, send, recv)),
            _ => None,
        }
    }

    /// Whether `action` is what the event asks for.
    pub open spec fn asks_for(self, action: AcceptAction<K, S, R>) -> bool {
        match self {
            AcceptEvent::Listened { connection: None, connecting: _, opening: _ } => {
                action matches AcceptAction::Report(error) && error.is_listen_failure()
            },
            _ => match self.socket() {
                Some(socket) => action == AcceptAction::Publish(socket),
                None => action == AcceptAction::<K, S, R>::Nothing,
            },
        }
    }
}

/// The accept loop between two waits. `C` is a connection whose handshake is going on, `K` one
/// whose handshake succeeded, and `B` yields the streams that the peer opens on it.
pub struct AcceptLoop<C, K, B> {
    incoming: IncomingHandler,
    connecting: PendingHandler<C>,
    opening: PendingHandler<NewConnection<K, B>>,
}

impl<C, K, B> AcceptLoop<C, K, B> {
    /// The state of the handler that listens.
    pub closed spec fn incoming(&self) -> IncomingState {
        self.incoming.state()
    }

    /// The handshakes that go on.
    pub closed spec fn connecting(&self) -> Seq<C> {
        self.connecting@
    }

    /// The connections without a stream.
    pub closed spec fn opening(&self) -> Seq<NewConnection<K, B>> {
        self.opening@
    }

    /// The accept loop of a server with these settings, which listens and has nothing in
    /// progress, and what the server's endpoint is set up with.
    pub fn start(settings: ServerNetworkSettings) -> (started: (Listen, Self))
        ensures
            started.0.config == settings.config,
            started.0.addr == settings.addr,
            started.1.incoming() == IncomingState::Listening,
            started.1.connecting() == Seq::<C>::empty(),
            started.1.opening() == Seq::<NewConnection<K, B>>::empty(),
    {
        let (incoming, _) = IncomingHandler::start::<C>();
        (
            Listen { config: settings.config, addr: settings.addr },
            AcceptLoop {
                incoming,
                connecting: PendingHandler::new(),
                opening: PendingHandler::new(),
            },
        )
    }

    /// Hands out what is in progress for the next wait.
    pub fn wait(self) -> (wait: AcceptWait<C, K, B>)
        requires
            self.incoming() == IncomingState::Listening,
        ensures
            wait.incoming.state() == IncomingState::Listening,
            match wait.connecting {
                Wait::Arrival => self.connecting().len() == 0,
                Wait::ArrivalOrCompletion(entries) => self.connecting().len() > 0 && entries@
                    == self.connecting(),
            },
            match wait.opening {
                Wait::Arrival => self.opening().len() == 0,
                Wait::ArrivalOrCompletion(entries) => self.opening().len() > 0 && entries@
                    == self.opening(),
            },
    {
        AcceptWait {
            incoming: self.incoming,
            connecting: self.connecting.wait(),
            opening: self.opening.wait(),
        }
    }

    /// Takes up what ended the wait, and passes on what one handler has for the next. Returns
    /// the loop, and what is to be done before its next wait.
    pub fn resume<E, S, R, F>(
        incoming: IncomingHandler,
        event: AcceptEvent<C, K, B, E, S, R, F>,
    ) -> (resumed: (Self, AcceptAction<K, S, R>))
        requires
            incoming.state() == IncomingState::Listening,
            event.is_valid(),
        ensures
            resumed.0.incoming() == event.incoming(),
            resumed.0.connecting() == event.connecting(),
            resumed.0.opening() == event.opening(),
            event.asks_for(resumed.1),
            event matches AcceptEvent::Listened { connection: Some(yielded), connecting, opening }
                ==> {
                &&& resumed.0.incoming() == IncomingState::Listening
                &&& resumed.0.connecting() == connecting@.push(yielded)
                &&& resumed.0.opening() == opening@
                &&& resumed.1 is Nothing
            },
            event matches AcceptEvent::Listened { connection: None, connecting, opening } ==> {
                &&& resumed.0.incoming() == IncomingState::Reporting
                &&& resumed.0.connecting() == connecting@
                &&& resumed.0.opening() == opening@
                &&& resumed.1 matches AcceptAction::Report(NetworkError::Listen(error))
                    && error.kind == crate::incoming::IoErrorKind::Other && error.message@
                    == "incoming connection failed!"@
            },
            event matches AcceptEvent::HandshakeEnded { index, outcome, connecting, opening } ==> {
                &&& resumed.0.incoming() == IncomingState::Listening
                &&& resumed.0.connecting() == connecting@.update(
                    index as int,
                    connecting@.last(),
                ).drop_last()
                &&& resumed.0.opening() == match outcome {
                    Ok(new) => opening@.push(new),
                    Err(_) => opening@,
                }
                &&& resumed.1 is Nothing
            },
            event matches AcceptEvent::StreamYielded { index, next, connecting, opening } ==> {
                &&& resumed.0.incoming() == IncomingState::Listening
                &&& resumed.0.connecting() == connecting@
                &&& resumed.0.opening() == opening@.update(
                    index as int,
                    opening@.last(),
                ).drop_last()
                &&& next matches Some(Ok((send, recv))) ==> resumed.1 == AcceptAction::Publish(
                    (opening@[index as int].connection, send, recv),
                )
                &&& next matches Some(Err(_)) ==> resumed.1 is Nothing
            },
            resumed.1 is Publish <==> (event matches AcceptEvent::StreamYielded {
                index: _,
                next: Some(Ok(_)),
                connecting: _,
                opening: _,
            }),
            resumed.1 is Report <==> (event matches AcceptEvent::Listened {
                connection: None,
                connecting: _,
                opening: _,
            }),
    {
        let mut incoming: IncomingHandler = incoming;
        match event {
            AcceptEvent::Listened { connection, connecting, opening } => {
                let opening = PendingHandler::with_pending(opening);
                match incoming.handle(IncomingEvent::Next(connection)) {
                    IncomingAction::HandOn(connection) => {
                        let _ = incoming.handle(IncomingEvent::<C>::HandedOn(true));
                        let (connecting, _) = PendingHandler::resume(
                            PendingEvent::<C, NewConnection<K, B>, E>::Arrived {
                                arrival: Some(connection),
                                waiting: connecting,
                            },
                        );
                        (AcceptLoop { incoming, connecting, opening }, AcceptAction::Nothing)
                    },
                    IncomingAction::Report(error) => {
                        let connecting = PendingHandler::with_pending(connecting);
                        (AcceptLoop { incoming, connecting, opening }, AcceptAction::Report(error))
                    },
                    _ => unreached(),
                }
            },
            AcceptEvent::HandshakeEnded { index, outcome, connecting, opening } => {
                let mut waiting: Vec<C> = connecting;
                let _ended = waiting.swap_remove(index);
                let (connecting, forwarded) = PendingHandler::resume(
                    PendingEvent::Completed { outcome, index, waiting },
                );
                let opening = match forwarded {
                    Some(new) => PendingHandler::resume(
                        PendingEvent::<NewConnection<K, B>, (K, S, R), F>::Arrived {
                            arrival: Some(new),
                            waiting: opening,
                        },
                    ).0,
                    None => PendingHandler::with_pending(opening),
                };
                (AcceptLoop { incoming, connecting, opening }, AcceptAction::Nothing)
            },
            AcceptEvent::StreamYielded { index, next, connecting, opening } => {
                let connecting = PendingHandler::with_pending(connecting);
                let mut waiting: Vec<NewConnection<K, B>> = opening;
                let ended = waiting.swap_remove(index);
                let opened = new_connection_to_bi_connection(ended.connection, next);
                let (opening, forwarded) = PendingHandler::resume(
                    PendingEvent::Completed { outcome: socket_of(opened), index, waiting },
                );
                let action = match forwarded {
                    Some(socket) => AcceptAction::Publish(socket),
                    None => AcceptAction::Nothing,
                };
                (AcceptLoop { incoming, connecting, opening }, action)
            },
        }
    }

    /// Goes on after a report, whether or not anyone took note of it.
    pub fn reported(&mut self, noted: bool)
        requires
            old(self).incoming() == IncomingState::Reporting,
        ensures
            final(self).incoming() == IncomingState::Listening,
            final(self).connecting() == old(self).connecting(),
            final(self).opening() == old(self).opening(),
    {
        let _ = self.incoming.handle(IncomingEvent::<C>::Reported(noted));
    }
}

/// The handshakes that go on once a new loop has been resumed with each of `events`.
pub open spec fn connecting_after<C, K, B, E, S, R, F>(
    events: Seq<AcceptEvent<C, K, B, E, S, R, F>>,
) -> Seq<C> {
    if events.len() == 0 {
        Seq::empty()
    } else {
        events.last().connecting()
    }
}

/// The connections without a stream once a new loop has been resumed with each of `events`.
pub open spec fn opening_after<C, K, B, E, S, R, F>(
    events: Seq<AcceptEvent<C, K, B, E, S, R, F>>,
) -> Seq<NewConnection<K, B>> {
    if events.len() == 0 {
        Seq::empty()
    } else {
        events.last().opening()
    }
}

/// Whether `events` can be what a new loop is resumed with, one wait after the other: each gives
/// back what was handed out for the wait.
pub open spec fn is_run<C, K, B, E, S, R, F>(
    events: Seq<AcceptEvent<C, K, B, E, S, R, F>>,
) -> bool {
    forall|i: int|
        0 <= i < events.len() ==> {
            &&& (#[trigger] events[i]).is_valid()
            &&& events[i].waited_connecting() == connecting_after(events.take(i))
            &&& events[i].waited_opening() == opening_after(events.take(i))
        }
}

/// The connections that listening yielded in the course of `events`, in order.
pub open spec fn listened<C, K, B, E, S, R, F>(
    events: Seq<AcceptEvent<C, K, B, E, S, R, F>>,
) -> Seq<C>
    decreases events.len(),
{
    if events.len() == 0 {
        Seq::empty()
    } else {
        let earlier = listened(events.drop_last());
        match events.last() {
            AcceptEvent::Listened { connection: Some(connection), connecting: _, opening: _ } => {
                earlier.push(connection)
            },
            _ => earlier,
        }
    }
}

/// The handshakes that ended in the course of `events`, each with its outcome, in order.
pub open spec fn handshakes<C, K, B, E, S, R, F>(
    events: Seq<AcceptEvent<C, K, B, E, S, R, F>>,
) -> Seq<(C, Result<NewConnection<K, B>, E>)>
    decreases events.len(),
{
    if events.len() == 0 {
        Seq::empty()
    } else {
        let earlier = handshakes(events.drop_last());
        match events.last() {
            AcceptEvent::HandshakeEnded { index, outcome, connecting, opening: _ } => earlier.push(
                (connecting@[index as int], outcome),
            ),
            _ => earlier,
        }
    }
}

/// The connections whose streams yielded in the course of `events`, each with what they yielded
/// first, in order.
pub open spec fn first_streams<C, K, B, E, S, R, F>(
    events: Seq<AcceptEvent<C, K, B, E, S, R, F>>,
) -> Seq<(NewConnection<K, B>, Result<(S, R), F>)>
    decreases events.len(),
{
    if events.len() == 0 {
        Seq::empty()
    } else {
        let earlier = first_streams(events.drop_last());
        match events.last() {
            AcceptEvent::StreamYielded { index, next: Some(first), connecting: _, opening } => {
                earlier.push((opening@[index as int], first))
            },
            _ => earlier,
        }
    }
}

/// The sockets that were published in the course of `events`, in order.
pub open spec fn published<C, K, B, E, S, R, F>(
    events: Seq<AcceptEvent<C, K, B, E, S, R, F>>,
) -> Seq<(K, S, R)>
    decreases events.len(),
{
    if events.len() == 0 {
        Seq::empty()
    } else {
        let earlier = published(events.drop_last());
        match events.last().socket() {
            Some(socket) => earlier.push(socket),
            None => earlier,
        }
    }
}

/// How many handshakes failed in the course of `events`.
pub open spec fn failed_handshakes<C, K, B, E, S, R, F>(
    events: Seq<AcceptEvent<C, K, B, E, S, R, F>>,
) -> nat
    decreases events.len(),
{
    if events.len() == 0 {
        0
    } else {
        failed_handshakes(events.drop_last()) + match events.last() {
            AcceptEvent::HandshakeEnded { index: _, outcome: Err(_), connecting: _, opening: _ } => {
                1nat
            },
            _ => 0nat,
        }
    }
}

/// How many connections failed before their first stream in the course of `events`.
pub open spec fn failed_streams<C, K, B, E, S, R, F>(
    events: Seq<AcceptEvent<C, K, B, E, S, R, F>>,
) -> nat
    decreases events.len(),
{
    if events.len() == 0 {
        0
    } else {
        failed_streams(events.drop_last()) + match events.last() {
            AcceptEvent::StreamYielded { index: _, next: Some(Err(_)), connecting: _, opening: _ } => {
                1nat
            },
            _ => 0nat,
        }
    }
}

/// Whether `from` says of each published socket which of the connections that listening yielded
/// it comes from, a different one for each: the handshake of that connection gave the new
/// connection whose connection the socket holds, with both directions of the first stream on it.
pub open spec fn are_origins<C, K, B, E, S, R, F>(
    events: Seq<AcceptEvent<C, K, B, E, S, R, F>>,
    from: Seq<int>,
) -> bool {
    &&& from.len() == published(events).len()
    &&& from.no_duplicates()
    &&& forall|j: int|
        0 <= j < from.len() ==> 0 <= #[trigger] from[j] < listened(events).len()
            && exists|new: NewConnection<K, B>|
            {
                &&& #[trigger] handshakes(events).contains(
                    (listened(events)[from[j]], Ok::<NewConnection<K, B>, E>(new)),
                )
                &&& first_streams(events).contains(
                    (new, Ok::<(S, R), F>((published(events)[j].1, published(events)[j].2))),
                )
                &&& published(events)[j].0 == new.connection
            }
}

/// What the handler of handshakes is resumed with in the course of `events`.
spec fn connecting_steps<C, K, B, E, S, R, F>(
    events: Seq<AcceptEvent<C, K, B, E, S, R, F>>,
) -> Seq<PendingStep<C, NewConnection<K, B>, E>>
    decreases events.len(),
{
    if events.len() == 0 {
        Seq::empty()
    } else {
        let earlier = connecting_steps(events.drop_last());
        match events.last() {
            AcceptEvent::Listened { connection: Some(connection), connecting, opening: _ } => {
                earlier.push(
                    PendingStep::Arrived { arrival: Some(connection), waiting: connecting@ },
                )
            },
            AcceptEvent::HandshakeEnded { index, outcome, connecting, opening: _ } => earlier.push(
                PendingStep::Completed {
                    outcome,
                    index: index as int,
                    waiting: swap_removed(connecting@, index as int),
                },
            ),
            _ => earlier,
        }
    }
}

/// What the handler of streams is resumed with in the course of `events`.
spec fn opening_steps<C, K, B, E, S, R, F>(
    events: Seq<AcceptEvent<C, K, B, E, S, R, F>>,
) -> Seq<PendingStep<NewConnection<K, B>, (K, S, R), F>>
    decreases events.len(),
{
    if events.len() == 0 {
        Seq::empty()
    } else {
        let earlier = opening_steps(events.drop_last());
        match events.last() {
            AcceptEvent::HandshakeEnded { index: _, outcome: Ok(new), connecting: _, opening } => {
                earlier.push(PendingStep::Arrived { arrival: Some(new), waiting: opening@ })
            },
            AcceptEvent::StreamYielded { index, next: Some(first), connecting: _, opening } => {
                earlier.push(
                    PendingStep::Completed {
                        outcome: crate::socket::socket_from(
                            opening@[index as int].connection,
                            first,
                        ),
                        index: index as int,
                        waiting: swap_removed(opening@, index as int),
                    },
                )
            },
            _ => earlier,
        }
    }
}

/// To let the last element take the place of another removes that other, up to order.
proof fn lemma_swap_removed<T>(s: Seq<T>, index: int)
    requires
        0 <= index < s.len(),
    ensures
        swap_removed(s, index).to_multiset() == s.remove(index).to_multiset(),
{
    broadcast use group_to_multiset_ensures;

    let front = s.drop_last();
    if index == s.len() - 1 {
        assert(swap_removed(s, index) =~= s.remove(index));
    } else {
        let others = front.remove(index);
        assert(s.remove(index) =~= others.push(s.last()));
        assert(swap_removed(s, index) =~= others.insert(index, s.last()));
        vstd::seq_lib::to_multiset_insert(others, index, s.last());
    }
}

/// A run without its last event is a run, and the last event gives back what is in progress.
proof fn lemma_run_prefix<C, K, B, E, S, R, F>(events: Seq<AcceptEvent<C, K, B, E, S, R, F>>)
    requires
        is_run(events),
        events.len() > 0,
    ensures
        is_run(events.drop_last()),
        events.last().is_valid(),
        events.last().waited_connecting() == connecting_after(events.drop_last()),
        events.last().waited_opening() == opening_after(events.drop_last()),
{
    let earlier = events.drop_last();
    let last = events.len() - 1;
    assert(events.take(last) =~= earlier);
    assert(events[last].is_valid());
    assert forall|i: int| 0 <= i < earlier.len() implies {
        &&& (#[trigger] earlier[i]).is_valid()
        &&& earlier[i].waited_connecting() == connecting_after(earlier.take(i))
        &&& earlier[i].waited_opening() == opening_after(earlier.take(i))
    } by {
        assert(earlier[i] == events[i]);
        assert(events[i].is_valid());
        assert(earlier.take(i) =~= events.take(i));
    }
}

/// In a run of the loop each of the two handlers of work in progress has a run, with an open
/// queue: what listening yields arrives at the first, and what the first forwards arrives at the
/// second, whose outputs are published.
proof fn lemma_handlers_are_joined<C, K, B, E, S, R, F>(
    events: Seq<AcceptEvent<C, K, B, E, S, R, F>>,
)
    requires
        is_run(events),
    ensures
        crate::pending::is_run(connecting_steps(events)),
        crate::pending::is_run(opening_steps(events)),
        !crate::pending::queue_closed(connecting_steps(events)),
        !crate::pending::queue_closed(opening_steps(events)),
        crate::pending::pending_after(connecting_steps(events)) == connecting_after(events),
        crate::pending::pending_after(opening_steps(events)) == opening_after(events),
        crate::pending::arrivals(connecting_steps(events)) == listened(events),
        crate::pending::arrivals(opening_steps(events)) == crate::pending::outputs(
            connecting_steps(events),
        ),
        crate::pending::outputs(opening_steps(events)) == published(events),
        crate::pending::failures(connecting_steps(events)) == failed_handshakes(events),
        crate::pending::failures(opening_steps(events)) == failed_streams(events),
        crate::pending::completions(connecting_steps(events)) == handshakes(events),
        crate::pending::completions(opening_steps(events)).len() == first_streams(events).len(),
        forall|i: int|
            0 <= i < first_streams(events).len()
                ==> #[trigger] crate::pending::completions(opening_steps(events))[i] == (
                first_streams(events)[i].0,
                crate::socket::socket_from(
                    first_streams(events)[i].0.connection,
                    first_streams(events)[i].1,
                ),
            ),
    decreases events.len(),
{
    if events.len() > 0 {
        let earlier = events.drop_last();
        lemma_run_prefix(events);
        lemma_handlers_are_joined(earlier);
        let before = connecting_steps(earlier);
        let now = connecting_steps(events);
        if now.len() > before.len() {
            assert(now.drop_last() =~= before);
            match events.last() {
                AcceptEvent::HandshakeEnded { index, outcome: _, connecting, opening: _ } => {
                    lemma_swap_removed(connecting@, index as int);
                },
                _ => {},
            }
            crate::pending::lemma_run_goes_on(before, now.last());
        }
        let before_opening = opening_steps(earlier);
        let now_opening = opening_steps(events);
        if now_opening.len() > before_opening.len() {
            assert(now_opening.drop_last() =~= before_opening);
            match events.last() {
                AcceptEvent::StreamYielded { index, next: _, connecting: _, opening } => {
                    lemma_swap_removed(opening@, index as int);
                },
                _ => {},
            }
            crate::pending::lemma_run_goes_on(before_opening, now_opening.last());
        }
    }
}

/// Every socket comes from a connection that listening yielded: it holds the connection that
/// the handshake made of it, and both directions of the first stream on that connection. No two
/// sockets come from the same one, and no socket mixes the parts of two.
pub proof fn law_sockets_come_from_listening<C, K, B, E, S, R, F>(
    events: Seq<AcceptEvent<C, K, B, E, S, R, F>>,
)
    requires
        is_run(events),
    ensures
        exists|from: Seq<int>| are_origins(events, from),
{
    lemma_handlers_are_joined(events);
    let connecting = connecting_steps(events);
    let opening = opening_steps(events);
    crate::pending::law_outputs_have_origins(connecting);
    crate::pending::law_outputs_have_origins(opening);
    let first = choose|from: Seq<int>| crate::pending::are_origins(connecting, from);
    let second = choose|from: Seq<int>| crate::pending::are_origins(opening, from);
    let from = Seq::new(second.len(), |j: int| first[second[j]]);
    assert forall|j: int| 0 <= j < from.len() implies 0 <= #[trigger] from[j] < listened(
        events,
    ).len() && exists|new: NewConnection<K, B>|
        {
            &&& #[trigger] handshakes(events).contains(
                (listened(events)[from[j]], Ok::<NewConnection<K, B>, E>(new)),
            )
            &&& first_streams(events).contains(
                (new, Ok::<(S, R), F>((published(events)[j].1, published(events)[j].2))),
            )
            &&& published(events)[j].0 == new.connection
        } by {
        let k = second[j];
        let new = crate::pending::arrivals(opening)[k];
        assert(first[k] == from[j]);
        assert(handshakes(events).contains(
            (listened(events)[from[j]], Ok::<NewConnection<K, B>, E>(new)),
        ));
        let completion = (new, Ok::<(K, S, R), F>(published(events)[j]));
        let completions = crate::pending::completions(opening);
        assert(completions.contains(completion));
        let i = choose|i: int| 0 <= i < completions.len() && completions[i] == completion;
        assert(first_streams(events)[i] == (
            new,
            Ok::<(S, R), F>((published(events)[j].1, published(events)[j].2)),
        ));
    }
    assert forall|i: int, j: int|
        0 <= i < from.len() && 0 <= j < from.len() && i != j implies from[i] != from[j] by {
        assert(second[i] != second[j]);
        assert(first[second[i]] != first[second[j]]);
    }
    assert(are_origins(events, from));
}

/// No connection is lost. Each one that listening yielded was published as a socket, failed in
/// its handshake or before its first stream, or is in progress; and what ended its handshake or
/// goes on with it is just what listening yielded.
pub proof fn law_no_connection_is_lost<C, K, B, E, S, R, F>(
    events: Seq<AcceptEvent<C, K, B, E, S, R, F>>,
)
    requires
        is_run(events),
    ensures
        published(events).len() + failed_streams(events) + opening_after(events).len()
            + failed_handshakes(events) + connecting_after(events).len() == listened(events).len(),
        handshakes(events).map_values(
            |ended: (C, Result<NewConnection<K, B>, E>)| ended.0,
        ).to_multiset().add(connecting_after(events).to_multiset()) == listened(
            events,
        ).to_multiset(),
{
    lemma_handlers_are_joined(events);
    crate::pending::law_no_arrival_is_lost(connecting_steps(events));
    crate::pending::law_no_arrival_is_lost(opening_steps(events));
}

/// Whether `actions` is what a new loop returned on being resumed with `events`, one action for
/// each.
pub open spec fn is_transcript<C, K, B, E, S, R, F>(
    events: Seq<AcceptEvent<C, K, B, E, S, R, F>>,
    actions: Seq<AcceptAction<K, S, R>>,
) -> bool {
    &&& is_run(events)
    &&& actions.len() == events.len()
    &&& forall|i: int| 0 <= i < events.len() ==> events[i].asks_for(#[trigger] actions[i])
}

/// The sockets that `actions` say to publish, in order.
pub open spec fn to_publish<K, S, R>(actions: Seq<AcceptAction<K, S, R>>) -> Seq<(K, S, R)>
    decreases actions.len(),
{
    if actions.len() == 0 {
        Seq::empty()
    } else {
        let earlier = to_publish(actions.drop_last());
        match actions.last() {
            AcceptAction::Publish(socket) => earlier.push(socket),
            _ => earlier,
        }
    }
}

/// A socket is published just where the streams of a connection yield one: it holds the
/// connection at that place with both directions of that stream, whatever else is in progress.
/// A failure is reported just where listening yields no connection. All else asks for nothing.
pub proof fn law_first_stream_is_published<C, K, B, E, S, R, F>(
    event: AcceptEvent<C, K, B, E, S, R, F>,
    action: AcceptAction<K, S, R>,
)
    requires
        event.is_valid(),
        event.asks_for(action),
    ensures
        forall|connection: K, send: S, recv: R| #[trigger]
            is_publication(action, connection, send, recv) <==> (event
                matches AcceptEvent::StreamYielded {
                index,
                next: Some(Ok((its_send, its_recv))),
                connecting: _,
                opening,
            } && opening@[index as int].connection == connection && its_send == send && its_recv
                == recv),
        action matches AcceptAction::Report(error) <==> (event matches AcceptEvent::Listened {
            connection: None,
            connecting: _,
            opening: _,
        }),
        action matches AcceptAction::Report(NetworkError::Listen(error)) ==> error.kind
            == crate::incoming::IoErrorKind::Other && error.message@
            == "incoming connection failed!"@,
{
}

/// Whether the action is to publish the socket of these parts.
pub open spec fn is_publication<K, S, R>(
    action: AcceptAction<K, S, R>,
    connection: K,
    send: S,
    recv: R,
) -> bool {
    action == AcceptAction::Publish((connection, send, recv))
}

/// What else is in progress makes no difference: where the streams of the same connection yield
/// the same, the same is asked for, whatever handshakes go on and whatever other connections
/// there are.
pub proof fn law_others_make_no_difference<C, K, B, E, S, R, F>(
    next: Option<Result<(S, R), F>>,
    at: (usize, usize),
    connecting: (Vec<C>, Vec<C>),
    opening: (Vec<NewConnection<K, B>>, Vec<NewConnection<K, B>>),
    actions: (AcceptAction<K, S, R>, AcceptAction<K, S, R>),
)
    requires
        opening.0@[at.0 as int].connection == opening.1@[at.1 as int].connection,
        (AcceptEvent::<C, K, B, E, S, R, F>::StreamYielded {
            index: at.0,
            next,
            connecting: connecting.0,
            opening: opening.0,
        }).asks_for(actions.0),
        (AcceptEvent::<C, K, B, E, S, R, F>::StreamYielded {
            index: at.1,
            next,
            connecting: connecting.1,
            opening: opening.1,
        }).asks_for(actions.1),
    ensures
        actions.0 == actions.1,
{
}

/// An event moves the connection that it is about, and no other. One that listening yielded is
/// put behind the handshakes. One whose handshake ended leaves them, and is put behind the
/// connections without a stream if it succeeded. One whose streams yielded leaves those. The
/// loop has to report just where listening yielded none, which moves nothing.
pub proof fn law_event_moves_one_connection<C, K, B, E, S, R, F>(
    event: AcceptEvent<C, K, B, E, S, R, F>,
)
    requires
        event.is_valid(),
    ensures
        event.incoming() == IncomingState::Reporting <==> (event matches AcceptEvent::Listened {
            connection: None,
            connecting: _,
            opening: _,
        }),
        event.incoming() == IncomingState::Reporting || event.incoming()
            == IncomingState::Listening,
        event matches AcceptEvent::Listened { connection, connecting, opening } ==> {
            &&& event.connecting() == match connection {
                Some(yielded) => connecting@.push(yielded),
                None => connecting@,
            }
            &&& event.opening() == opening@
        },
        event matches AcceptEvent::HandshakeEnded { index, outcome, connecting, opening } ==> {
            &&& event.connecting().to_multiset() == connecting@.to_multiset().remove(
                connecting@[index as int],
            )
            &&& event.connecting().len() == connecting@.len() - 1
            &&& event.opening() == match outcome {
                Ok(new) => opening@.push(new),
                Err(_) => opening@,
            }
        },
        event matches AcceptEvent::StreamYielded { index, next: _, connecting, opening } ==> {
            &&& event.connecting() == connecting@
            &&& event.opening().to_multiset() == opening@.to_multiset().remove(
                opening@[index as int],
            )
            &&& event.opening().len() == opening@.len() - 1
        },
{
    broadcast use group_to_multiset_ensures;

    match event {
        AcceptEvent::Listened { .. } => {},
        AcceptEvent::HandshakeEnded { index, outcome: _, connecting, opening: _ } => {
            lemma_swap_removed(connecting@, index as int);
        },
        AcceptEvent::StreamYielded { index, next: _, connecting: _, opening } => {
            lemma_swap_removed(opening@, index as int);
        },
    }
}

/// Where an element leaves, the last one takes its place and all others keep theirs.
pub proof fn law_others_keep_their_places<T>(s: Seq<T>, index: int)
    requires
        0 <= index < s.len(),
    ensures
        swap_removed(s, index).len() == s.len() - 1,
        index < s.len() - 1 ==> swap_removed(s, index)[index] == s[s.len() - 1],
        forall|i: int|
            0 <= i < s.len() - 1 && i != index ==> #[trigger] swap_removed(s, index)[i] == s[i],
{
}

/// The loop takes up whatever listening yields, the end of any handshake that was waited for,
/// and the first stream of, or a failure on, any connection that was waited for.
pub proof fn law_every_outcome_is_taken<C, K, B, E, S, R, F>(
    event: AcceptEvent<C, K, B, E, S, R, F>,
)
    ensures
        event is Listened ==> event.is_valid(),
        event matches AcceptEvent::HandshakeEnded { index, outcome: _, connecting, opening: _ } ==> (
        event.is_valid() <==> index < connecting@.len()),
        event matches AcceptEvent::StreamYielded { index, next, connecting: _, opening } ==> (
        event.is_valid() <==> index < opening@.len() && next is Some),
{
}

/// The sockets that the loop says to publish are those that were completed, all of them and in
/// order: one for each first stream that was not a failure. So none is lost: each connection
/// that listening yielded was given out as a socket, failed in its handshake or before its first
/// stream, or is in progress.
pub proof fn law_actions_publish_every_socket<C, K, B, E, S, R, F>(
    events: Seq<AcceptEvent<C, K, B, E, S, R, F>>,
    actions: Seq<AcceptAction<K, S, R>>,
)
    requires
        is_transcript(events, actions),
    ensures
        to_publish(actions) == published(events),
        to_publish(actions).len() + failed_streams(events) == first_streams(events).len(),
        to_publish(actions).len() + failed_streams(events) + opening_after(events).len()
            + failed_handshakes(events) + connecting_after(events).len() == listened(events).len(),
{
    lemma_actions_publish(events, actions);
    law_no_connection_is_lost(events);
}

/// What is published by the actions of a transcript, and how many first streams there were.
proof fn lemma_actions_publish<C, K, B, E, S, R, F>(
    events: Seq<AcceptEvent<C, K, B, E, S, R, F>>,
    actions: Seq<AcceptAction<K, S, R>>,
)
    requires
        is_transcript(events, actions),
    ensures
        to_publish(actions) == published(events),
        to_publish(actions).len() + failed_streams(events) == first_streams(events).len(),
    decreases events.len(),
{
    if events.len() > 0 {
        lemma_run_prefix(events);
        let earlier = actions.drop_last();
        assert forall|i: int| 0 <= i < earlier.len() implies events.drop_last()[i].asks_for(
            #[trigger] earlier[i],
        ) by {
            assert(earlier[i] == actions[i]);
        }
        lemma_actions_publish(events.drop_last(), earlier);
        assert(events[events.len() - 1].asks_for(actions[actions.len() - 1]));
    }
}

/// The loop says to report a failure just where listening yielded no connection, and to publish
/// just where the streams of a connection yielded one.
pub proof fn law_actions_answer_their_events<C, K, B, E, S, R, F>(
    events: Seq<AcceptEvent<C, K, B, E, S, R, F>>,
    actions: Seq<AcceptAction<K, S, R>>,
    i: int,
)
    requires
        is_transcript(events, actions),
        0 <= i < events.len(),
    ensures
        actions[i] is Report <==> (events[i] matches AcceptEvent::Listened {
            connection: None,
            connecting: _,
            opening: _,
        }),
        actions[i] is Publish <==> (events[i] matches AcceptEvent::StreamYielded {
            index: _,
            next: Some(Ok(_)),
            connecting: _,
            opening: _,
        }),
{
    assert(events[i].asks_for(actions[i]));
}

/// Whether a new loop was resumed with `events`, one wait after the other, and `resumed` is what
/// came back: each event gives back what the loop before it held, and nothing at first.
pub open spec fn is_execution<C, K, B, E, S, R, F>(
    incoming: Seq<IncomingHandler>,
    events: Seq<AcceptEvent<C, K, B, E, S, R, F>>,
    resumed: Seq<(AcceptLoop<C, K, B>, AcceptAction<K, S, R>)>,
) -> bool {
    &&& incoming.len() == events.len()
    &&& resumed.len() == events.len()
    &&& forall|i: int|
        0 <= i < events.len() ==> {
            &&& events[i].is_valid()
            &&& call_ensures(
                AcceptLoop::<C, K, B>::resume::<E, S, R, F>,
                (incoming[i], events[i]),
                #[trigger] resumed[i],
            )
            &&& i == 0 ==> events[i].waited_connecting().len() == 0
                && events[i].waited_opening().len() == 0
            &&& i > 0 ==> events[i].waited_connecting() == resumed[i - 1].0.connecting()
                && events[i].waited_opening() == resumed[i - 1].0.opening()
        }
}

/// The actions that came back, in order.
pub open spec fn returned<C, K, B, S, R>(
    resumed: Seq<(AcceptLoop<C, K, B>, AcceptAction<K, S, R>)>,
) -> Seq<AcceptAction<K, S, R>> {
    Seq::new(resumed.len(), |i: int| resumed[i].1)
}

/// In any course of waits, each connection that listening yielded was given out as a socket by
/// the actions that came back, failed in its handshake or before its first stream, or is in
/// progress in the loop that came back last.
pub proof fn law_resuming_loses_no_connection<C, K, B, E, S, R, F>(
    incoming: Seq<IncomingHandler>,
    events: Seq<AcceptEvent<C, K, B, E, S, R, F>>,
    resumed: Seq<(AcceptLoop<C, K, B>, AcceptAction<K, S, R>)>,
)
    requires
        is_execution(incoming, events, resumed),
        events.len() > 0,
    ensures
        to_publish(returned(resumed)) == published(events),
        to_publish(returned(resumed)).len() + failed_streams(events)
            + resumed.last().0.opening().len() + failed_handshakes(events)
            + resumed.last().0.connecting().len() == listened(events).len(),
{
    assert forall|i: int| 0 <= i < events.len() implies {
        &&& (#[trigger] events[i]).is_valid()
        &&& events[i].waited_connecting() == connecting_after(events.take(i))
        &&& events[i].waited_opening() == opening_after(events.take(i))
    } by {
        assert(call_ensures(
            AcceptLoop::<C, K, B>::resume::<E, S, R, F>,
            (incoming[i], events[i]),
            resumed[i],
        ));
        if i == 0 {
            assert(events[i].waited_connecting() =~= Seq::empty());
            assert(events[i].waited_opening() =~= Seq::empty());
        } else {
            assert(call_ensures(
                AcceptLoop::<C, K, B>::resume::<E, S, R, F>,
                (incoming[i - 1], events[i - 1]),
                resumed[i - 1],
            ));
            assert(events.take(i).last() == events[i - 1]);
        }
    }
    assert forall|i: int| 0 <= i < events.len() implies events[i].asks_for(
        #[trigger] returned(resumed)[i],
    ) by {
        assert(call_ensures(
            AcceptLoop::<C, K, B>::resume::<E, S, R, F>,
            (incoming[i], events[i]),
            resumed[i],
        ));
    }
    law_actions_publish_every_socket(events, returned(resumed));
    let last = events.len() - 1;
    assert(call_ensures(
        AcceptLoop::<C, K, B>::resume::<E, S, R, F>,
        (incoming[last], events[last]),
        resumed[last],
    ));
    assert(resumed.last().0.opening() == events[last].opening());
    assert(resumed.last().0.connecting() == events[last].connecting());
}

/// A connection that listening yielded is shaken hands with from the next wait on, and one whose
/// handshake succeeded is waited on for its first stream, each behind those that were before.
pub proof fn law_what_came_in_is_waited_for<C, K, B, E, S, R, F>(
    incoming: IncomingHandler,
    event: AcceptEvent<C, K, B, E, S, R, F>,
    resumed: (AcceptLoop<C, K, B>, AcceptAction<K, S, R>),
    wait: AcceptWait<C, K, B>,
)
    requires
        call_ensures(AcceptLoop::<C, K, B>::resume::<E, S, R, F>, (incoming, event), resumed),
        call_ensures(AcceptLoop::<C, K, B>::wait, (resumed.0,), wait),
    ensures
        wait.incoming.state() == IncomingState::Listening,
        event matches AcceptEvent::Listened { connection: Some(yielded), connecting, opening: _ }
            ==> (wait.connecting matches Wait::ArrivalOrCompletion(entries) && entries@
            == connecting@.push(yielded)),
        event matches AcceptEvent::HandshakeEnded {
            index: _,
            outcome: Ok(new),
            connecting: _,
            opening,
        } ==> (wait.opening matches Wait::ArrivalOrCompletion(entries) && entries@ == opening@.push(
            new,
        )),
{
}

/// A new loop waits for a connection and for nothing else, with what the settings say.
pub proof fn law_new_loop_has_nothing_in_progress<C, K, B>(
    settings: ServerNetworkSettings,
    started: (Listen, AcceptLoop<C, K, B>),
    wait: AcceptWait<C, K, B>,
)
    requires
        call_ensures(AcceptLoop::<C, K, B>::start, (settings,), started),
        call_ensures(AcceptLoop::<C, K, B>::wait, (started.1,), wait),
    ensures
        started.0.config == settings.config,
        started.0.addr == settings.addr,
        wait.incoming.state() == IncomingState::Listening,
        wait.connecting is Arrival,
        wait.opening is Arrival,
{
}

/// A report, noted or not, leaves all that is in progress alone, and the loop listens on.
pub proof fn law_report_leaves_the_rest_alone<C, K, B>(
    accept_loop: &mut AcceptLoop<C, K, B>,
    noted: bool,
)
    requires
        call_ensures(AcceptLoop::<C, K, B>::reported, (accept_loop, noted), ()),
    ensures
        final(accept_loop).incoming() == IncomingState::Listening,
        final(accept_loop).connecting() == old(accept_loop).connecting(),
        final(accept_loop).opening() == old(accept_loop).opening(),
{
}

} // verus!
