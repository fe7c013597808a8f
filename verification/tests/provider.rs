use std::sync::Arc;

use bevy_spicy_networking_tokio_quinn::{
    new_connection_to_bi_connection, socket_of, split_socket, AcceptAction, AcceptEvent,
    AcceptLoop, ClientConfig, ClientNetworkSettings, ConnectAction, ConnectSuccess, ConnectTask,
    Listen, NetworkError, NewConnection, ReceiveAction, SendAction, ServerConfig,
    ServerNetworkSettings, SocketAddr, SocketAddrV4, TokioQuinnClientProvider,
    TokioQuinnServerProvider, Wait,
};

fn client_settings() -> ClientNetworkSettings {
    let mut config = ClientConfig::with_root_certificates(rustls::RootCertStore::empty());
    config.version(99);
    ClientNetworkSettings::new(config, ([0, 0, 0, 0], 1), ([127, 0, 0, 1], 2), "localhost")
}

fn server_settings() -> ServerNetworkSettings {
    let crypto = rustls::ServerConfig::builder()
        .with_safe_defaults()
        .with_no_client_auth()
        .with_cert_resolver(Arc::new(rustls::server::ResolvesServerCertUsingSni::new()));
    let mut config = ServerConfig::with_crypto(Arc::new(crypto));
    config.concurrent_connections(4242);
    ServerNetworkSettings::new(config, ([127, 0, 0, 1], 3))
}

#[test]
fn providers_have_defaults() {
    let _server: TokioQuinnServerProvider = Default::default();
    let _client: TokioQuinnClientProvider = Default::default();
}

type Accept = AcceptLoop<&'static str, &'static str, u8>;
type Event = AcceptEvent<&'static str, &'static str, u8, (), &'static str, &'static str, ()>;
type Action = AcceptAction<&'static str, &'static str, &'static str>;

fn in_progress<T>(wait: Wait<T>) -> Vec<T> {
    match wait {
        Wait::Arrival => Vec::new(),
        Wait::ArrivalOrCompletion(entries) => entries,
    }
}

fn new_connection(connection: &'static str) -> NewConnection<&'static str, u8> {
    NewConnection { connection, streams: 0 }
}

fn listen(accept: Accept, connection: Option<&'static str>) -> (Accept, Action) {
    let wait = accept.wait();
    let event = Event::Listened {
        connection,
        connecting: in_progress(wait.connecting),
        opening: in_progress(wait.opening),
    };
    AcceptLoop::resume(wait.incoming, event)
}

fn end_handshake(
    accept: Accept,
    connection: &'static str,
    outcome: Result<&'static str, ()>,
) -> (Accept, Action) {
    let wait = accept.wait();
    let connecting = in_progress(wait.connecting);
    let event = Event::HandshakeEnded {
        index: connecting.iter().position(|entry| *entry == connection).unwrap(),
        outcome: outcome.map(new_connection),
        connecting,
        opening: in_progress(wait.opening),
    };
    AcceptLoop::resume(wait.incoming, event)
}

fn yield_stream(
    accept: Accept,
    connection: &'static str,
    first: Result<(&'static str, &'static str), ()>,
) -> (Accept, Action) {
    let wait = accept.wait();
    let opening = in_progress(wait.opening);
    let event = Event::StreamYielded {
        index: opening.iter().position(|entry| entry.connection == connection).unwrap(),
        next: Some(first),
        connecting: in_progress(wait.connecting),
        opening,
    };
    AcceptLoop::resume(wait.incoming, event)
}

fn socket(action: Action) -> (&'static str, &'static str, &'static str) {
    match action {
        AcceptAction::Publish(socket) => socket,
        _ => panic!("nothing published"),
    }
}

#[test]
fn accept_loop_begins_with_nothing_in_progress() {
    let (listen, accept): (Listen, Accept) =
        TokioQuinnServerProvider::accept_loop(server_settings());
    assert_eq!(listen.addr, SocketAddr::V4(SocketAddrV4 { ip: [127, 0, 0, 1], port: 3 }));
    assert!(format!("{:?}", listen.config).contains("4242"));
    let wait = accept.wait();
    assert!(matches!(wait.connecting, Wait::Arrival));
    assert!(matches!(wait.opening, Wait::Arrival));
}

#[test]
fn both_of_two_handshakes_become_sockets() {
    let (_, accept): (Listen, Accept) = TokioQuinnServerProvider::accept_loop(server_settings());
    let (accept, action) = listen(accept, Some("c0"));
    assert!(matches!(action, AcceptAction::Nothing));
    let (accept, _) = listen(accept, Some("c1"));
    let (accept, action) = end_handshake(accept, "c0", Ok("k0"));
    assert!(matches!(action, AcceptAction::Nothing));
    let (accept, action) = yield_stream(accept, "k0", Ok(("s0", "r0")));
    assert_eq!(socket(action), ("k0", "s0", "r0"));
    let (accept, _) = end_handshake(accept, "c1", Ok("k1"));
    let (accept, action) = yield_stream(accept, "k1", Ok(("s1", "r1")));
    assert_eq!(socket(action), ("k1", "s1", "r1"));
    let wait = accept.wait();
    assert!(matches!(wait.connecting, Wait::Arrival));
    assert!(matches!(wait.opening, Wait::Arrival));
}

#[test]
fn sockets_hold_the_connection_whose_stream_came() {
    let (_, mut accept): (Listen, Accept) =
        TokioQuinnServerProvider::accept_loop(server_settings());
    for (connection, new) in [("c0", "k0"), ("c1", "k1"), ("c2", "k2")] {
        accept = listen(accept, Some(connection)).0;
        accept = end_handshake(accept, connection, Ok(new)).0;
    }
    let (accept, action) = yield_stream(accept, "k1", Ok(("s1", "r1")));
    assert_eq!(socket(action), ("k1", "s1", "r1"));
    let (accept, action) = yield_stream(accept, "k2", Ok(("s2", "r2")));
    assert_eq!(socket(action), ("k2", "s2", "r2"));
    let (_, action) = yield_stream(accept, "k0", Ok(("s0", "r0")));
    assert_eq!(socket(action), ("k0", "s0", "r0"));
}

#[test]
fn no_connection_is_lost() {
    let (_, mut accept): (Listen, Accept) =
        TokioQuinnServerProvider::accept_loop(server_settings());
    for connection in ["c0", "c1", "c2", "c3", "c4"] {
        accept = listen(accept, Some(connection)).0;
    }
    let (accept, action) = end_handshake(accept, "c1", Err(()));
    assert!(matches!(action, AcceptAction::Nothing));
    let (accept, _) = end_handshake(accept, "c0", Ok("k0"));
    let (accept, _) = end_handshake(accept, "c3", Ok("k3"));
    let (accept, _) = end_handshake(accept, "c4", Ok("k4"));
    let (accept, action) = yield_stream(accept, "k0", Err(()));
    assert!(matches!(action, AcceptAction::Nothing));
    let (accept, action) = yield_stream(accept, "k4", Ok(("s", "r")));
    assert_eq!(socket(action), ("k4", "s", "r"));
    // One socket, two failures, one handshake and one connection without a stream.
    let wait = accept.wait();
    assert_eq!(in_progress(wait.connecting), vec!["c2"]);
    let opening = in_progress(wait.opening);
    assert_eq!(opening.len(), 1);
    assert_eq!(opening[0].connection, "k3");
}

#[test]
fn accept_loop_goes_on_after_a_listen_failure() {
    for noted in [true, false] {
        let (_, accept): (Listen, Accept) =
            TokioQuinnServerProvider::accept_loop(server_settings());
        let (accept, _) = listen(accept, Some("c0"));
        let (mut accept, action) = listen(accept, None);
        match action {
            AcceptAction::Report(NetworkError::Listen(error)) => {
                assert_eq!(error.message, "incoming connection failed!")
            }
            _ => panic!("nothing reported"),
        }
        accept.reported(noted);
        let (accept, _) = listen(accept, Some("c1"));
        assert_eq!(in_progress(accept.wait().connecting), vec!["c0", "c1"]);
    }
}

#[test]
fn receive_loops_read_by_the_packet_limit() {
    let mut settings = server_settings();
    settings.max_packet_length = 64;
    let (_, action) = TokioQuinnServerProvider::recv_loop::<u8, u8, u8>(settings);
    assert!(matches!(action, ReceiveAction::Read { max_length: 64, ordered: false }));
    let mut settings = client_settings();
    settings.max_packet_length = 65;
    let (_, action) = TokioQuinnClientProvider::recv_loop::<u8, u8, u8>(settings);
    assert!(matches!(action, ReceiveAction::Read { max_length: 65, ordered: false }));
}

#[test]
fn send_loops_begin_with_waiting() {
    let (_, action) = TokioQuinnServerProvider::send_loop::<u8, u8, u8>();
    assert!(matches!(action, SendAction::Await));
    let (_, action) = TokioQuinnClientProvider::send_loop::<u8, u8, u8>();
    assert!(matches!(action, SendAction::Await));
}

#[test]
fn connecting_publishes_one_socket() {
    let (mut task, action): (ConnectTask<&str>, ConnectAction<&str, u8, u16>) =
        TokioQuinnClientProvider::connect_task(client_settings());
    match action {
        ConnectAction::Bind(addr) => {
            assert_eq!(addr, SocketAddr::V4(SocketAddrV4 { ip: [0, 0, 0, 0], port: 1 }))
        }
        _ => panic!("not bound"),
    }
    match task.succeeded(ConnectSuccess::<&str, u8, u16>::Bound) {
        ConnectAction::Dial { config, addr, server_name } => {
            assert!(format!("{:?}", config).contains("99"));
            assert_eq!(addr, SocketAddr::V4(SocketAddrV4 { ip: [127, 0, 0, 1], port: 2 }));
            assert_eq!(server_name, "localhost");
        }
        _ => panic!("not dialed"),
    }
    let action = task.succeeded(ConnectSuccess::<&str, u8, u16>::Dialed);
    assert!(matches!(action, ConnectAction::AwaitHandshake));
    let action = task.succeeded(ConnectSuccess::<&str, u8, u16>::HandsShaken("connection"));
    assert!(matches!(action, ConnectAction::OpenStream(&"connection")));
    let action = task.succeeded(ConnectSuccess::<&str, u8, u16>::Opened(7, 8));
    assert!(matches!(action, ConnectAction::Publish(("connection", 7, 8))));
    let action = task.succeeded(ConnectSuccess::<&str, u8, u16>::Published);
    assert!(matches!(action, ConnectAction::Finish));
    assert!(matches!(task, ConnectTask::Connected));
}

#[test]
fn both_halves_keep_the_connection() {
    let ((read_connection, read), (write_connection, write)) =
        split_socket(("connection", "send", "recv"));
    assert_eq!(*read_connection, "connection");
    assert_eq!(read, "recv");
    assert_eq!(write, "send");
    assert!(Arc::ptr_eq(&read_connection, &write_connection));
}

#[test]
fn connection_is_paired_with_its_stream() {
    let pair = new_connection_to_bi_connection("connection", Some(5));
    assert_eq!(pair, ("connection", 5));
}

#[test]
fn socket_needs_an_opened_stream() {
    let opened: Result<(u8, u16), &str> = Ok((1, 2));
    assert_eq!(socket_of(("connection", opened)), Ok(("connection", 1, 2)));
    let refused: Result<(u8, u16), &str> = Err("closed");
    assert_eq!(socket_of(("connection", refused)), Err("closed"));
}
