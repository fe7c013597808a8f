//! The part of the accept loop that listens: it hands every incoming connection on to the
//! handshakes, and reports every time that listening failed.
use vstd::prelude::*;

verus! {

/// Creates a `String` from a string slice: `<String as From<&str>>::from` of the standard
/// library. The new string holds the characters of the slice.
pub assume_specification<'a>[ <String as From<&'a str>>::from ](s: &str) -> (string: String)
    ensures
        string@ == s@,
;

/// The category of an I/O failure.
#[derive(Clone, Copy, Debug, PartialEq, Eq, Structural)]
pub enum IoErrorKind {
    /// None of the categories that the operating system knows.
    Other,
}

/// An I/O failure: its category, and the reason in words.
#[derive(Debug, PartialEq, Eq)]
pub struct IoError {
    pub kind: IoErrorKind,
    pub message: String,
}

/// A failure that is reported to the owner of the accept loop.
#[derive(Debug, PartialEq, Eq)]
pub enum NetworkError {
    /// Listening for new connections failed.
    Listen(IoError),
}

impl NetworkError {
    /// Whether this is what is reported when listening yields no connection.
    pub open spec fn is_listen_failure(self) -> bool {
        &&& self->Listen_0.kind == IoErrorKind::Other
        &&& self->Listen_0.message@ == "incoming connection failed!"@
    }
}

/// Where the handler stands.
#[derive(Clone, Copy, Debug, PartialEq, Eq, Structural)]
pub enum IncomingState {
    /// It waits for the next incoming connection.
    Listening,
    /// It waits to learn whether a connection was taken over.
    HandingOn,
    /// It waits to learn whether a failure was taken note of.
    Reporting,
    /// It has ended.
    Stopped,
}

/// What the handler is told.
pub enum IncomingEvent<C> {
    /// Listening yielded a connection, or none.
    Next(Option<C>),
    /// Whether the connection was taken over.
    HandedOn(bool),
    /// Whether the failure was taken note of.
    Reported(bool),
}

/// What the handler wants done next.
pub enum IncomingAction<C> {
    /// Listen for the next connection.
    Listen,
    /// Hand this connection on to the handshakes.
    HandOn(C),
    /// Report this failure.
    Report(NetworkError),
    /// End.
    Stop,
}

impl IncomingState {
    /// Whether the event can occur in this state.
    pub open spec fn expects<C>(self, event: IncomingEvent<C>) -> bool {
        match event {
            IncomingEvent::Next(_) => self == IncomingState::Listening,
            IncomingEvent::HandedOn(_) => self == IncomingState::HandingOn,
            IncomingEvent::Reported(_) => self == IncomingState::Reporting,
        }
    }
}

impl<C> IncomingEvent<C> {
    /// The state that the event leads to. Only a connection that nobody takes over ends the
    /// handler.
    pub open spec fn leads_to(self) -> IncomingState {
        match self {
            IncomingEvent::Next(Some(_)) => IncomingState::HandingOn,
            IncomingEvent::Next(None) => IncomingState::Reporting,
            IncomingEvent::HandedOn(taken) => if taken {
                IncomingState::Listening
            } else {
                IncomingState::Stopped
            },
            IncomingEvent::Reported(_) => IncomingState::Listening,
        }
    }

    /// Whether `action` is what the event asks for.
    pub open spec fn asks_for(self, action: IncomingAction<C>) -> bool {
        match self {
            IncomingEvent::Next(Some(connection)) => action == IncomingAction::HandOn(connection),
            IncomingEvent::Next(None) => action matches IncomingAction::Report(error)
                && error.is_listen_failure(),
            IncomingEvent::HandedOn(true) => action == IncomingAction::<C>::Listen,
            IncomingEvent::HandedOn(false) => action == IncomingAction::<C>::Stop,
            IncomingEvent::Reported(_) => action == IncomingAction::<C>::Listen,
        }
    }
}

/// The handler of incoming connections.
pub struct IncomingHandler {
    state: IncomingState,
}

impl IncomingHandler {
    /// Where the handler stands.
    pub closed spec fn state(&self) -> IncomingState {
        self.state
    }

    /// A handler that is about to listen, and the action it begins with.
    pub fn start<C>() -> (started: (Self, IncomingAction<C>))
        ensures
            started.0.state() == IncomingState::Listening,
            started.1 == IncomingAction::<C>::Listen,
    {
        (IncomingHandler { state: IncomingState::Listening }, IncomingAction::Listen)
    }

    /// Takes up an event and says what is to be done next.
    pub fn handle<C>(&mut self, event: IncomingEvent<C>) -> (action: IncomingAction<C>)
        requires
            old(self).state().expects(event),
        ensures
            final(self).state() == event.leads_to(),
            event.asks_for(action),
            event matches IncomingEvent::Next(Some(connection)) ==> final(self).state()
                == IncomingState::HandingOn && action == IncomingAction::HandOn(connection),
            event == IncomingEvent::<C>::Next(None) ==> final(self).state()
                == IncomingState::Reporting && (action matches IncomingAction::Report(
                NetworkError::Listen(error),
            ) && error.kind == IoErrorKind::Other && error.message@
                == "incoming connection failed!"@),
            event == IncomingEvent::<C>::HandedOn(true) ==> final(self).state()
                == IncomingState::Listening && action == IncomingAction::<C>::Listen,
            event == IncomingEvent::<C>::HandedOn(false) ==> final(self).state()
                == IncomingState::Stopped && action == IncomingAction::<C>::Stop,
            event is Reported ==> final(self).state() == IncomingState::Listening && action
                == IncomingAction::<C>::Listen,
    {
        match event {
            IncomingEvent::Next(Some(connection)) => {
                self.state = IncomingState::HandingOn;
                IncomingAction::HandOn(connection)
            },
            IncomingEvent::Next(None) => {
                self.state = IncomingState::Reporting;
                IncomingAction::Report(
                    NetworkError::Listen(
                        IoError {
                            kind: IoErrorKind::Other,
                            message: String::from("incoming connection failed!"),
                        },
                    ),
                )
            },
            IncomingEvent::HandedOn(taken) => {
                if taken {
                    self.state = IncomingState::Listening;
                    IncomingAction::Listen
                } else {
                    self.state = IncomingState::Stopped;
                    IncomingAction::Stop
                }
            },
            IncomingEvent::Reported(_) => {
                self.state = IncomingState::Listening;
                IncomingAction::Listen
            },
        }
    }
}

/// The state of a new handler that has handled each of `events`.
pub open spec fn state_after<C>(events: Seq<IncomingEvent<C>>) -> IncomingState {
    if events.len() == 0 {
        IncomingState::Listening
    } else {
        events.last().leads_to()
    }
}

/// Whether a new handler can be told `events`, one after the other.
pub open spec fn is_run<C>(events: Seq<IncomingEvent<C>>) -> bool {
    forall|i: int|
        0 <= i < events.len() ==> state_after(events.take(i)).expects(#[trigger] events[i])
}

/// The connections that listening yielded in the course of `events`, in order.
pub open spec fn listened<C>(events: Seq<IncomingEvent<C>>) -> Seq<C>
    decreases events.len(),
{
    if events.len() == 0 {
        Seq::empty()
    } else {
        let earlier = listened(events.drop_last());
        match events.last() {
            IncomingEvent::Next(Some(connection)) => earlier.push(connection),
            _ => earlier,
        }
    }
}

/// The connections that were taken over in the course of `events`, in order.
pub open spec fn taken_over<C>(events: Seq<IncomingEvent<C>>) -> Seq<C>
    decreases events.len(),
{
    if events.len() < 2 {
        Seq::empty()
    } else {
        let earlier = taken_over(events.drop_last());
        match (events[events.len() - 2], events.last()) {
            (IncomingEvent::Next(Some(connection)), IncomingEvent::HandedOn(true)) => earlier.push(
                connection,
            ),
            _ => earlier,
        }
    }
}

/// A run without its last event is a run, and the last event is expected there.
proof fn lemma_run_prefix<C>(events: Seq<IncomingEvent<C>>)
    requires
        is_run(events),
        events.len() > 0,
    ensures
        is_run(events.drop_last()),
        state_after(events.drop_last()).expects(events.last()),
{
    let earlier = events.drop_last();
    assert(events.take(events.len() - 1) =~= earlier);
    assert(state_after(events.take(events.len() - 1)).expects(events[events.len() - 1]));
    assert forall|i: int| 0 <= i < earlier.len() implies state_after(earlier.take(i)).expects(
        #[trigger] earlier[i],
    ) by {
        assert(earlier[i] == events[i]);
        assert(earlier.take(i) =~= events.take(i));
    }
}

/// The handler ends when a connection is not taken over, and for no other reason: neither a
/// failure to listen nor a report that nobody takes note of ends it.
pub proof fn law_only_a_refused_connection_ends_it<C>(events: Seq<IncomingEvent<C>>)
    requires
        is_run(events),
    ensures
        state_after(events) == IncomingState::Stopped <==> events.contains(
            IncomingEvent::HandedOn(false),
        ),
    decreases events.len(),
{
    let refused = IncomingEvent::<C>::HandedOn(false);
    if events.len() > 0 {
        let earlier = events.drop_last();
        lemma_run_prefix(events);
        law_only_a_refused_connection_ends_it(earlier);
        assert(events =~= earlier.push(events.last()));
        if events.last() == refused {
            assert(events[events.len() - 1] == refused);
        } else if events.contains(refused) {
            let i = choose|i: int| 0 <= i < events.len() && events[i] == refused;
            assert(earlier[i] == refused);
        }
    }
}

/// Connections are taken over once each and in the order in which listening yielded them. A
/// handler that listens or reports owes none; otherwise all but the last have been taken over.
pub proof fn law_connections_are_handed_on_in_order<C>(events: Seq<IncomingEvent<C>>)
    requires
        is_run(events),
    ensures
        match state_after(events) {
            IncomingState::Listening | IncomingState::Reporting => taken_over(events) == listened(
                events,
            ),
            IncomingState::HandingOn | IncomingState::Stopped => {
                &&& listened(events).len() > 0
                &&& taken_over(events) == listened(events).drop_last()
            },
        },
    decreases events.len(),
{
    if events.len() > 0 {
        let earlier = events.drop_last();
        lemma_run_prefix(events);
        law_connections_are_handed_on_in_order(earlier);
        if earlier.len() > 0 {
            assert(earlier.last() == events[events.len() - 2]);
            lemma_run_prefix(earlier);
        }
    }
}

/// Whether `actions` is what a new handler returned on being told `events`, one action for each.
pub open spec fn is_transcript<C>(
    events: Seq<IncomingEvent<C>>,
    actions: Seq<IncomingAction<C>>,
) -> bool {
    &&& is_run(events)
    &&& actions.len() == events.len()
    &&& forall|i: int| 0 <= i < events.len() ==> events[i].asks_for(#[trigger] actions[i])
}

/// The connections that `actions` say to hand on, in order.
pub open spec fn to_hand_on<C>(actions: Seq<IncomingAction<C>>) -> Seq<C>
    decreases actions.len(),
{
    if actions.len() == 0 {
        Seq::empty()
    } else {
        let earlier = to_hand_on(actions.drop_last());
        match actions.last() {
            IncomingAction::HandOn(connection) => earlier.push(connection),
            _ => earlier,
        }
    }
}

/// Every connection that listening yields is handed on, and no failure is made of it.
pub proof fn law_yielded_connection_is_handed_on<C>(connection: C, action: IncomingAction<C>)
    requires
        IncomingEvent::Next(Some(connection)).asks_for(action),
    ensures
        IncomingEvent::Next(Some(connection)).leads_to() == IncomingState::HandingOn,
        action == IncomingAction::HandOn(connection),
{
}

/// Where listening yields no connection, a failure to listen is reported, in the one way.
pub proof fn law_missing_connection_is_reported<C>(action: IncomingAction<C>)
    requires
        IncomingEvent::<C>::Next(None).asks_for(action),
    ensures
        IncomingEvent::<C>::Next(None).leads_to() == IncomingState::Reporting,
        action matches IncomingAction::Report(NetworkError::Listen(error)) && error.kind
            == IoErrorKind::Other && error.message@ == "incoming connection failed!"@,
{
}

/// A connection that was taken over, and a report, noted or not, lead back to listening. A
/// connection that was not taken over ends the handler.
pub proof fn law_answer_decides_whether_it_listens_on<C>(
    noted: bool,
    taken: IncomingAction<C>,
    refused: IncomingAction<C>,
    reported: IncomingAction<C>,
)
    requires
        IncomingEvent::<C>::HandedOn(true).asks_for(taken),
        IncomingEvent::<C>::HandedOn(false).asks_for(refused),
        IncomingEvent::<C>::Reported(noted).asks_for(reported),
    ensures
        IncomingEvent::<C>::HandedOn(true).leads_to() == IncomingState::Listening,
        taken == IncomingAction::<C>::Listen,
        IncomingEvent::<C>::HandedOn(false).leads_to() == IncomingState::Stopped,
        refused == IncomingAction::<C>::Stop,
        IncomingEvent::<C>::Reported(noted).leads_to() == IncomingState::Listening,
        reported == IncomingAction::<C>::Listen,
{
}

/// A handler that listens takes whatever listening yields, and one that waits for an answer
/// either answer. One that has ended takes nothing.
pub proof fn law_every_outcome_is_taken<C>(state: IncomingState, event: IncomingEvent<C>)
    ensures
        state.expects(event) <==> match state {
            IncomingState::Listening => event is Next,
            IncomingState::HandingOn => event is HandedOn,
            IncomingState::Reporting => event is Reported,
            IncomingState::Stopped => false,
        },
{
}

/// The connections that the handler says to hand on are those that listening yielded, all of
/// them and in order.
pub proof fn law_actions_hand_on_every_connection<C>(
    events: Seq<IncomingEvent<C>>,
    actions: Seq<IncomingAction<C>>,
)
    requires
        is_transcript(events, actions),
    ensures
        to_hand_on(actions) == listened(events),
    decreases events.len(),
{
    if events.len() > 0 {
        lemma_run_prefix(events);
        let earlier = actions.drop_last();
        assert forall|i: int| 0 <= i < earlier.len() implies events.drop_last()[i].asks_for(
            #[trigger] earlier[i],
        ) by {
            assert(earlier[i] == actions[i]);
        }
        law_actions_hand_on_every_connection(events.drop_last(), earlier);
        assert(events[events.len() - 1].asks_for(actions[actions.len() - 1]));
    }
}

/// The handler reports a failure just where listening yields no connection, and says to stop
/// just where a connection is not taken over.
pub proof fn law_actions_report_every_failure<C>(
    events: Seq<IncomingEvent<C>>,
    actions: Seq<IncomingAction<C>>,
    i: int,
)
    requires
        is_transcript(events, actions),
        0 <= i < events.len(),
    ensures
        actions[i] is Report <==> events[i] == IncomingEvent::<C>::Next(None),
        actions[i] is Stop <==> events[i] == IncomingEvent::<C>::HandedOn(false),
{
    assert(events[i].asks_for(actions[i]));
}

/// Whatever handlers handled the events: the connections to hand on in the actions that came
/// back are those that listening yielded, all of them and in order.
pub proof fn law_handling_hands_on_every_connection<C>(
    handlers: Seq<&mut IncomingHandler>,
    events: Seq<IncomingEvent<C>>,
    actions: Seq<IncomingAction<C>>,
)
    requires
        handlers.len() == events.len(),
        actions.len() == events.len(),
        forall|i: int|
            0 <= i < events.len() ==> call_ensures(
                IncomingHandler::handle::<C>,
                (handlers[i], events[i]),
                #[trigger] actions[i],
            ),
    ensures
        to_hand_on(actions) == listened(events),
    decreases events.len(),
{
    if events.len() > 0 {
        let earlier = actions.drop_last();
        assert forall|i: int| 0 <= i < earlier.len() implies call_ensures(
            IncomingHandler::handle::<C>,
            (handlers.drop_last()[i], events.drop_last()[i]),
            #[trigger] earlier[i],
        ) by {
            assert(earlier[i] == actions[i]);
        }
        law_handling_hands_on_every_connection(handlers.drop_last(), events.drop_last(), earlier);
        let last = events.len() - 1;
        assert(call_ensures(
            IncomingHandler::handle::<C>,
            (handlers[last], events[last]),
            actions[last],
        ));
    }
}

/// The handler starts as it goes on: it listens, as after each connection that was taken over.
pub proof fn law_start_is_like_after_a_connection<C>(
    started: (IncomingHandler, IncomingAction<C>),
)
    requires
        call_ensures(IncomingHandler::start::<C>, (), started),
    ensures
        started.1 == IncomingAction::<C>::Listen,
        IncomingEvent::<C>::HandedOn(true).asks_for(started.1),
        started.0.state() == IncomingState::Listening,
        started.0.state() == IncomingEvent::<C>::HandedOn(true).leads_to(),
{
}

} // verus!
