//! A QUIC transport for networked games: the decisions of its server and its client.
//!
//! The loops of the transport are state machines. Each says what is to be done next (read a
//! chunk, write these bytes, wait for a connection), is told what came of it, and goes on from
//! there. Sockets, streams and the encoding of packets belong to the program around them.
pub mod accept;
pub mod address;
pub mod connect;
pub mod incoming;
pub mod pending;
pub mod provider;
pub mod receive;
pub mod send;
pub mod settings;
pub mod socket;

pub use accept::{AcceptAction, AcceptEvent, AcceptLoop, AcceptWait, Listen, NewConnection};
pub use address::{SocketAddr, SocketAddrV4, SocketAddrV6};
pub use connect::{ConnectAction, ConnectSuccess, ConnectTask};
pub use incoming::{
    IncomingAction, IncomingEvent, IncomingHandler, IncomingState, IoError, IoErrorKind,
    NetworkError,
};
pub use pending::{PendingEvent, PendingHandler, Wait};
pub use provider::{TokioQuinnClientProvider, TokioQuinnServerProvider};
pub use quinn::{ClientConfig, ServerConfig};
pub use receive::{ReceiveAction, ReceiveEvent, ReceiveLoop, ReceivePhase, ReceiveStop};
pub use send::{SendAction, SendEvent, SendLoop, SendPhase, SendStop};
pub use settings::{ClientNetworkSettings, ServerNetworkSettings, DEFAULT_MAX_PACKET_LENGTH};
pub use socket::{new_connection_to_bi_connection, socket_of, split_socket};
