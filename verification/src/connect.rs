//! The task that connects a client: one step after the other, each of which must succeed.
use quinn::ClientConfig;
use vstd::pervasive::unreached;
use vstd::prelude::*;

use crate::address::SocketAddr;
use crate::settings::ClientNetworkSettings;

verus! {

/// How far the task has come. `K` is a connection.
pub enum ConnectTask<K> {
    /// The local endpoint is being set up; this is what the connection will need.
    Binding { config: ClientConfig, connect_addr: SocketAddr, server_name: String },
    /// The connection is being started.
    Dialing,
    /// The handshake is going on.
    ShakingHands,
    /// The bidirectional stream is being opened on this connection.
    Opening { connection: K },
    /// The socket is being published.
    Publishing,
    /// All is done.
    Connected,
}

/// What succeeded. `S` and `R` are the directions of a stream to send and to receive on.
pub enum ConnectSuccess<K, S, R> {
    /// The local endpoint is set up.
    Bound,
    /// The connection is started.
    Dialed,
    /// The handshake ended, with this connection.
    HandsShaken(K),
    /// The stream is open: these are its directions.
    Opened(S, R),
    /// The socket is published.
    Published,
}

/// What the task wants done next. The task cannot go on unless that succeeds.
pub enum ConnectAction<'a, K, S, R> {
    /// Set up a local endpoint at this address.
    Bind(SocketAddr),
    /// Start a connection to this address and server name, with this configuration.
    Dial { config: ClientConfig, addr: SocketAddr, server_name: String },
    /// Wait for the end of the handshake.
    AwaitHandshake,
    /// Open a bidirectional stream on this connection.
    OpenStream(&'a K),
    /// Publish this socket: the connection with both directions of the stream.
    Publish((K, S, R)),
    /// Nothing: the client is connected.
    Finish,
}

impl<K> ConnectTask<K> {
    /// Whether this is what can succeed at this step.
    pub open spec fn expects<S, R>(self, success: ConnectSuccess<K, S, R>) -> bool {
        match success {
            ConnectSuccess::Bound => self is Binding,
            ConnectSuccess::Dialed => self is Dialing,
            ConnectSuccess::HandsShaken(_) => self is ShakingHands,
            ConnectSuccess::Opened(_, _) => self is Opening,
            ConnectSuccess::Published => self is Publishing,
        }
    }

    /// The step that follows this one, and what it asks for.
    pub open spec fn following<'a, S, R>(self, success: ConnectSuccess<K, S, R>) -> (
        ConnectTask<K>,
        ConnectAction<'a, K, S, R>,
    )
        recommends
            self.expects(success),
    {
        match success {
            ConnectSuccess::Bound => (
                ConnectTask::Dialing,
                ConnectAction::Dial {
                    config: self->config,
                    addr: self->connect_addr,
                    server_name: self->server_name,
                },
            ),
            ConnectSuccess::Dialed => (ConnectTask::ShakingHands, ConnectAction::AwaitHandshake),
            ConnectSuccess::HandsShaken(connection) => (
                ConnectTask::Opening { connection },
                ConnectAction::OpenStream(&connection),
            ),
            ConnectSuccess::Opened(send, recv) => (
                ConnectTask::Publishing,
                ConnectAction::Publish((self->connection, send, recv)),
            ),
            ConnectSuccess::Published => (ConnectTask::Connected, ConnectAction::Finish),
        }
    }

    /// A task that connects by these settings, and the action it begins with.
    pub fn start<'a, S, R>(settings: ClientNetworkSettings) -> (started: (
        Self,
        ConnectAction<'a, K, S, R>,
    ))
        ensures
            started.0 == (ConnectTask::<K>::Binding {
                config: settings.config,
                connect_addr: settings.connect_addr,
                server_name: settings.server_name,
            }),
            started.1 == ConnectAction::<'a, K, S, R>::Bind(settings.bind_addr),
    {
        (
            ConnectTask::Binding {
                config: settings.config,
                connect_addr: settings.connect_addr,
                server_name: settings.server_name,
            },
            ConnectAction::Bind(settings.bind_addr),
        )
    }

    /// Goes on to the next step, once what was asked for has succeeded.
    pub fn succeeded<'a, S, R>(&'a mut self, success: ConnectSuccess<K, S, R>) -> (action:
        ConnectAction<'a, K, S, R>)
        requires
            old(self).expects(success),
        ensures
            *final(self) == old(self).following(success).0,
            action == old(self).following(success).1,
            *old(self) matches ConnectTask::Binding {
                config: its_config,
                connect_addr,
                server_name: its_name,
            } ==> *final(self) is Dialing && (action matches ConnectAction::Dial {
                config,
                addr,
                server_name,
            } && config == its_config && addr == connect_addr && server_name == its_name),
            *old(self) is Dialing ==> *final(self) is ShakingHands && action is AwaitHandshake,
            success matches ConnectSuccess::HandsShaken(connection) ==> (*final(self)
                matches ConnectTask::Opening { connection: kept } && kept == connection) && (
            action matches ConnectAction::OpenStream(on) && *on == connection),
            *old(self) matches ConnectTask::Opening { connection } ==> success
                matches ConnectSuccess::Opened(send, recv) ==> *final(self) is Publishing && (action
                matches ConnectAction::Publish(socket) && socket == (connection, send, recv)),
            *old(self) is Publishing ==> *final(self) is Connected && action is Finish,
    {
        match success {
            ConnectSuccess::Bound => {
                let mut step = ConnectTask::Dialing;
                std::mem::swap(self, &mut step);
                match step {
                    ConnectTask::Binding { config, connect_addr, server_name } => {
                        ConnectAction::Dial { config, addr: connect_addr, server_name }
                    },
                    _ => unreached(),
                }
            },
            ConnectSuccess::Dialed => {
                *self = ConnectTask::ShakingHands;
                ConnectAction::AwaitHandshake
            },
            ConnectSuccess::HandsShaken(connection) => {
                *self = ConnectTask::Opening { connection };
                match self {
                    ConnectTask::Opening { connection } => ConnectAction::OpenStream(connection),
                    _ => unreached(),
                }
            },
            ConnectSuccess::Opened(send, recv) => {
                let mut step = ConnectTask::Publishing;
                std::mem::swap(self, &mut step);
                match step {
                    ConnectTask::Opening { connection } => ConnectAction::Publish(
                        (connection, send, recv),
                    ),
                    _ => unreached(),
                }
            },
            ConnectSuccess::Published => {
                *self = ConnectTask::Connected;
                ConnectAction::Finish
            },
        }
    }
}

/// The step of a task that began at `start`, after `successes`.
pub open spec fn step_after<K, S, R>(
    start: ConnectTask<K>,
    successes: Seq<ConnectSuccess<K, S, R>>,
) -> ConnectTask<K>
    decreases successes.len(),
{
    if successes.len() == 0 {
        start
    } else {
        step_after(start, successes.drop_last()).following(successes.last()).0
    }
}

/// Whether a task that began at `start` can be told of `successes`, one after the other.
pub open spec fn is_run<K, S, R>(
    start: ConnectTask<K>,
    successes: Seq<ConnectSuccess<K, S, R>>,
) -> bool {
    forall|i: int|
        0 <= i < successes.len() ==> step_after(start, successes.take(i)).expects(
            #[trigger] successes[i],
        )
}

/// What a task that began at `start` asks for on being told of `successes`, in order.
pub open spec fn actions<'a, K, S, R>(
    start: ConnectTask<K>,
    successes: Seq<ConnectSuccess<K, S, R>>,
) -> Seq<ConnectAction<'a, K, S, R>>
    decreases successes.len(),
{
    if successes.len() == 0 {
        Seq::empty()
    } else {
        let earlier = successes.drop_last();
        actions(start, earlier).push(step_after(start, earlier).following(successes.last()).1)
    }
}

/// A run without its last success is a run, and the last success is expected there.
proof fn lemma_run_prefix<K, S, R>(
    start: ConnectTask<K>,
    successes: Seq<ConnectSuccess<K, S, R>>,
)
    requires
        is_run(start, successes),
        successes.len() > 0,
    ensures
        is_run(start, successes.drop_last()),
        step_after(start, successes.drop_last()).expects(successes.last()),
{
    let earlier = successes.drop_last();
    assert(successes.take(successes.len() - 1) =~= earlier);
    assert(step_after(start, successes.take(successes.len() - 1)).expects(
        successes[successes.len() - 1],
    ));
    assert forall|i: int| 0 <= i < earlier.len() implies step_after(start, earlier.take(i)).expects(
        #[trigger] earlier[i],
    ) by {
        assert(earlier[i] == successes[i]);
        assert(earlier.take(i) =~= successes.take(i));
    }
}

/// A client whose endpoint is set up dials the server it was set up for, waits for the
/// handshake, opens a stream on the connection that the handshake gave, and publishes one
/// socket: that connection with the two directions of that stream. It takes these steps in this
/// order and once each, and is then connected.
pub proof fn law_connecting_publishes_one_socket<K, S, R>(
    start: ConnectTask<K>,
    successes: Seq<ConnectSuccess<K, S, R>>,
)
    requires
        start is Binding,
        is_run(start, successes),
    ensures
        successes.len() <= 5,
        actions::<K, S, R>(start, successes).len() == successes.len(),
        successes.len() > 0 ==> (actions(start, successes)[0] matches ConnectAction::Dial {
            config,
            addr,
            server_name,
        } && config == start->config && addr == start->connect_addr && server_name
            == start->server_name),
        successes.len() > 1 ==> actions(start, successes)[1]
            == ConnectAction::<K, S, R>::AwaitHandshake,
        successes.len() > 2 ==> (successes[2] matches ConnectSuccess::HandsShaken(connection)
            && actions(start, successes)[2] == ConnectAction::<K, S, R>::OpenStream(
            &connection,
        )),
        successes.len() > 3 ==> (successes[2] matches ConnectSuccess::HandsShaken(connection)
            && successes[3] matches ConnectSuccess::Opened(send, recv) && actions(
            start,
            successes,
        )[3] == ConnectAction::<K, S, R>::Publish((connection, send, recv))),
        successes.len() > 4 ==> actions(start, successes)[4] == ConnectAction::<K, S, R>::Finish,
        step_after(start, successes) is Connected <==> successes.len() == 5,
{
    lemma_steps(start, successes);
}

/// The step after `successes` is known by their number, and so is what was asked for.
proof fn lemma_steps<K, S, R>(
    start: ConnectTask<K>,
    successes: Seq<ConnectSuccess<K, S, R>>,
)
    requires
        start is Binding,
        is_run(start, successes),
    ensures
        successes.len() <= 5,
        actions::<K, S, R>(start, successes).len() == successes.len(),
        step_after(start, successes) == if successes.len() == 0 {
            start
        } else if successes.len() == 1 {
            ConnectTask::Dialing
        } else if successes.len() == 2 {
            ConnectTask::ShakingHands
        } else if successes.len() == 3 {
            ConnectTask::Opening { connection: successes[2]->HandsShaken_0 }
        } else if successes.len() == 4 {
            ConnectTask::Publishing
        } else {
            ConnectTask::Connected
        },
        successes.len() > 2 ==> successes[2] is HandsShaken,
        successes.len() > 3 ==> successes[3] is Opened,
        forall|i: int|
            0 <= i < successes.len() ==> #[trigger] actions(start, successes)[i] == if i == 0 {
                ConnectAction::Dial {
                    config: start->config,
                    addr: start->connect_addr,
                    server_name: start->server_name,
                }
            } else if i == 1 {
                ConnectAction::AwaitHandshake
            } else if i == 2 {
                ConnectAction::OpenStream(&successes[2]->HandsShaken_0)
            } else if i == 3 {
                ConnectAction::Publish(
                    (
                        successes[2]->HandsShaken_0,
                        successes[3]->Opened_0,
                        successes[3]->Opened_1,
                    ),
                )
            } else {
                ConnectAction::Finish
            },
    decreases successes.len(),
{
    if successes.len() > 0 {
        let earlier = successes.drop_last();
        lemma_run_prefix(start, successes);
        lemma_steps(start, earlier);
        assert forall|i: int| 0 <= i < earlier.len() implies #[trigger] actions::<K, S, R>(
            start,
            successes,
        )[i] == actions(start, earlier)[i] by {}
        if successes.len() > 2 {
            assert(successes[2] == if successes.len() == 3 {
                successes.last()
            } else {
                earlier[2]
            });
        }
        if successes.len() > 3 {
            assert(successes[3] == if successes.len() == 4 {
                successes.last()
            } else {
                earlier[3]
            });
        }
    }
}

/// Every step waits for its own success and takes it, whatever came of it. A client that is
/// connected waits for nothing.
pub proof fn law_every_success_is_taken<K, S, R>(
    task: ConnectTask<K>,
    success: ConnectSuccess<K, S, R>,
)
    ensures
        task.expects(success) <==> match task {
            ConnectTask::Binding { .. } => success is Bound,
            ConnectTask::Dialing => success is Dialed,
            ConnectTask::ShakingHands => success is HandsShaken,
            ConnectTask::Opening { .. } => success is Opened,
            ConnectTask::Publishing => success is Published,
            ConnectTask::Connected => false,
        },
{
}

/// Whatever connection the handshake gives and whatever stream is opened, a client for which
/// every step succeeds is told of the five of them in turn, and is then connected.
pub proof fn law_connecting_comes_to_an_end<K, S, R>(
    start: ConnectTask<K>,
    connection: K,
    send: S,
    recv: R,
)
    requires
        start is Binding,
    ensures
        ({
            let successes = seq![
                ConnectSuccess::Bound,
                ConnectSuccess::Dialed,
                ConnectSuccess::HandsShaken(connection),
                ConnectSuccess::Opened(send, recv),
                ConnectSuccess::Published,
            ];
            &&& is_run(start, successes)
            &&& step_after(start, successes) is Connected
            &&& actions(start, successes)[3] == ConnectAction::<K, S, R>::Publish(
                (connection, send, recv),
            )
        }),
{
    let successes = seq![
        ConnectSuccess::Bound,
        ConnectSuccess::Dialed,
        ConnectSuccess::HandsShaken(connection),
        ConnectSuccess::Opened(send, recv),
        ConnectSuccess::Published,
    ];
    assert(step_after(start, successes.take(0)) == start);
    assert(successes.take(1).drop_last() =~= successes.take(0));
    assert(step_after(start, successes.take(1)) is Dialing);
    assert(successes.take(2).drop_last() =~= successes.take(1));
    assert(step_after(start, successes.take(2)) is ShakingHands);
    assert(successes.take(3).drop_last() =~= successes.take(2));
    assert(step_after(start, successes.take(3)) is Opening);
    assert(successes.take(4).drop_last() =~= successes.take(3));
    assert(step_after(start, successes.take(4)) is Publishing);
    assert(is_run(start, successes));
    law_connecting_publishes_one_socket(start, successes);
}

} // verus!
