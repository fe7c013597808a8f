//! The two ends of a connection over QUIC: what a server and what a client does.
use std::sync::Arc;

use quinn::{Connection, RecvStream, SendStream};
use vstd::prelude::*;

use crate::accept::{AcceptLoop, Listen, NewConnection};
use crate::connect::{ConnectAction, ConnectTask};
use crate::incoming::IncomingState;
use crate::receive::{ReceiveAction, ReceiveLoop, ReceivePhase};
use crate::send::{SendAction, SendLoop, SendPhase};
use crate::settings::{ClientNetworkSettings, ServerNetworkSettings};
use crate::socket::split_socket;

verus! {

/// A QUIC connection, `quinn::Connection`. It is only passed on.
#[verifier::external_type_specification]
#[verifier::external_body]
pub struct ExConnection(quinn::Connection);

/// The sending direction of a stream, `quinn::SendStream`. It is only passed on.
#[verifier::external_type_specification]
#[verifier::external_body]
pub struct ExSendStream(quinn::SendStream);

/// The receiving direction of a stream, `quinn::RecvStream`. It is only passed on.
#[verifier::external_type_specification]
#[verifier::external_body]
pub struct ExRecvStream(quinn::RecvStream);

/// The server's end.
#[derive(Clone, Copy, Debug)]
pub struct TokioQuinnServerProvider;

impl Default for TokioQuinnServerProvider {
    fn default() -> (provider: Self)
        ensures
            provider == TokioQuinnServerProvider,
    {
        TokioQuinnServerProvider
    }
}

impl TokioQuinnServerProvider {
    /// The loop that accepts connections, which listens and has nothing in progress, and what
    /// the server's endpoint is set up with: the configuration and the address of
    /// `network_settings`.
    pub fn accept_loop<C, K, B>(network_settings: ServerNetworkSettings) -> (started: (
        Listen,
        AcceptLoop<C, K, B>,
    ))
        ensures
            started.0.config == network_settings.config,
            started.0.addr == network_settings.addr,
            started.1.incoming() == IncomingState::Listening,
            started.1.connecting() == Seq::<C>::empty(),
            started.1.opening() == Seq::<NewConnection<K, B>>::empty(),
    {
        AcceptLoop::start(network_settings)
    }

    /// The loop that receives the packets of one connection, and the action it begins with: to
    /// read what arrives, in whatever order, by chunks of at most the maximum packet size.
    pub fn recv_loop<P, R, D>(settings: ServerNetworkSettings) -> (started: (
        ReceiveLoop,
        ReceiveAction<P, R, D>,
    ))
        ensures
            started.0.limit() == settings.max_packet_length,
            started.0.phase() == ReceivePhase::Reading,
            started.1 == (ReceiveAction::<P, R, D>::Read {
                max_length: settings.max_packet_length,
                ordered: false,
            }),
    {
        ReceiveLoop::start(settings.max_packet_length)
    }

    /// The loop that sends packets on one connection, and the action it begins with: to wait
    /// for a packet.
    pub fn send_loop<P, E, W>() -> (started: (SendLoop, SendAction<P, E, W>))
        ensures
            started.0.phase() == SendPhase::Awaiting,
            started.1 == SendAction::<P, E, W>::Await,
    {
        SendLoop::start()
    }

    /// Splits a socket into a half to read from and a half to write to. Both keep the
    /// connection.
    pub fn split(combined: (Connection, SendStream, RecvStream)) -> (halves: (
        (Arc<Connection>, RecvStream),
        (Arc<Connection>, SendStream),
    ))
        ensures
            *halves.0.0 == combined.0,
            halves.0.1 == combined.2,
            *halves.1.0 == combined.0,
            halves.1.1 == combined.1,
    {
        split_socket(combined)
    }
}

/// The client's end.
#[derive(Clone, Copy, Debug)]
pub struct TokioQuinnClientProvider;

impl Default for TokioQuinnClientProvider {
    fn default() -> (provider: Self)
        ensures
            provider == TokioQuinnClientProvider,
    {
        TokioQuinnClientProvider
    }
}

impl TokioQuinnClientProvider {
    /// The task that connects by `network_settings`, and the action it begins with: to set up
    /// an endpoint at the local address.
    pub fn connect_task<'a, K, S, R>(network_settings: ClientNetworkSettings) -> (started: (
        ConnectTask<K>,
        ConnectAction<'a, K, S, R>,
    ))
        ensures
            started.0 == (ConnectTask::<K>::Binding {
                config: network_settings.config,
                connect_addr: network_settings.connect_addr,
                server_name: network_settings.server_name,
            }),
            started.1 == ConnectAction::<'a, K, S, R>::Bind(network_settings.bind_addr),
    {
        ConnectTask::start(network_settings)
    }

    /// The loop that receives the packets of the connection, and the action it begins with: to
    /// read what arrives, in whatever order, by chunks of at most the maximum packet size.
    pub fn recv_loop<P, R, D>(settings: ClientNetworkSettings) -> (started: (
        ReceiveLoop,
        ReceiveAction<P, R, D>,
    ))
        ensures
            started.0.limit() == settings.max_packet_length,
            started.0.phase() == ReceivePhase::Reading,
            started.1 == (ReceiveAction::<P, R, D>::Read {
                max_length: settings.max_packet_length,
                ordered: false,
            }),
    {
        ReceiveLoop::start(settings.max_packet_length)
    }

    /// The loop that sends packets on the connection, and the action it begins with: to wait
    /// for a packet.
    pub fn send_loop<P, E, W>() -> (started: (SendLoop, SendAction<P, E, W>))
        ensures
            started.0.phase() == SendPhase::Awaiting,
            started.1 == SendAction::<P, E, W>::Await,
    {
        SendLoop::start()
    }

    /// Splits a socket into a half to read from and a half to write to. Both keep the
    /// connection.
    pub fn split(combined: (Connection, SendStream, RecvStream)) -> (halves: (
        (Arc<Connection>, RecvStream),
        (Arc<Connection>, SendStream),
    ))
        ensures
            *halves.0.0 == combined.0,
            halves.0.1 == combined.2,
            *halves.1.0 == combined.0,
            halves.1.1 == combined.1,
    {
        split_socket(combined)
    }
}

/// The packet size of the settings is what the loops of both ends take packets up to, and what
/// they read by.
pub proof fn law_loops_keep_to_the_settings<P, R, D>(
    server: ServerNetworkSettings,
    of_server: (ReceiveLoop, ReceiveAction<P, R, D>),
    client: ClientNetworkSettings,
    of_client: (ReceiveLoop, ReceiveAction<P, R, D>),
)
    requires
        call_ensures(TokioQuinnServerProvider::recv_loop::<P, R, D>, (server,), of_server),
        call_ensures(TokioQuinnClientProvider::recv_loop::<P, R, D>, (client,), of_client),
    ensures
        of_server.0.limit() == server.max_packet_length,
        of_server.1 matches ReceiveAction::Read { max_length, ordered } && max_length
            == server.max_packet_length && !ordered,
        of_client.0.limit() == client.max_packet_length,
        of_client.1 matches ReceiveAction::Read { max_length, ordered } && max_length
            == client.max_packet_length && !ordered,
{
}

/// Both ends split a socket alike, and from the halves it can be put together again.
pub proof fn law_halves_make_up_the_socket(
    combined: (Connection, SendStream, RecvStream),
    of_server: ((Arc<Connection>, RecvStream), (Arc<Connection>, SendStream)),
    of_client: ((Arc<Connection>, RecvStream), (Arc<Connection>, SendStream)),
)
    requires
        call_ensures(TokioQuinnServerProvider::split, (combined,), of_server),
        call_ensures(TokioQuinnClientProvider::split, (combined,), of_client),
    ensures
        of_server == of_client,
        (*of_server.0.0, of_server.1.1, of_server.0.1) == combined,
        of_server.1.0 == of_server.0.0,
{
}

/// A client goes for just what its settings say: it binds at their local address, and dials
/// their server, by name and address, with their configuration.
pub proof fn law_client_dials_by_its_settings<'a, K, S, R>(
    settings: ClientNetworkSettings,
    started: (ConnectTask<K>, ConnectAction<'a, K, S, R>),
    successes: Seq<crate::connect::ConnectSuccess<K, S, R>>,
)
    requires
        call_ensures(
            TokioQuinnClientProvider::connect_task::<K, S, R>,
            (settings,),
            started,
        ),
        crate::connect::is_run(started.0, successes),
        successes.len() > 0,
    ensures
        started.1 matches ConnectAction::Bind(addr) && addr == settings.bind_addr,
        crate::connect::actions::<K, S, R>(started.0, successes)[0] matches ConnectAction::Dial {
            config,
            addr,
            server_name,
        } && config == settings.config && addr == settings.connect_addr && server_name
            == settings.server_name,
{
    crate::connect::law_connecting_publishes_one_socket(started.0, successes);
}

} // verus!
