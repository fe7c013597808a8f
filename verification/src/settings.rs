//! Settings of servers and clients.
use quinn::{ClientConfig, ServerConfig};
use vstd::prelude::*;

use crate::address::SocketAddr;

verus! {

/// The TLS and transport configuration of a client, `quinn::ClientConfig`. It is passed on
/// to `quinn` as it is.
#[verifier::external_type_specification]
#[verifier::external_body]
pub struct ExClientConfig(quinn::ClientConfig);

/// The TLS and transport configuration of a server, `quinn::ServerConfig`. It is passed on
/// to `quinn` as it is.
#[verifier::external_type_specification]
#[verifier::external_body]
pub struct ExServerConfig(quinn::ServerConfig);

/// `Clone` of `quinn::ClientConfig`: a configuration with the same version number, which
/// shares the transport and cryptographic settings of the first.
pub assume_specification[ <quinn::ClientConfig as Clone>::clone ](
    config: &quinn::ClientConfig,
) -> (copy: quinn::ClientConfig)
    ensures
        copy == *config,
;

/// `Clone` of `quinn::ServerConfig`: a configuration with the same numbers and switches, which
/// shares the transport settings, the cryptographic settings and the token key of the first.
pub assume_specification[ <quinn::ServerConfig as Clone>::clone ](
    config: &quinn::ServerConfig,
) -> (copy: quinn::ServerConfig)
    ensures
        copy == *config,
;

/// Conversion of a value into its own type, `<T as From<T>>::from` of the standard library,
/// through which `Into::into` goes: it returns the value unchanged.
pub assume_specification<V>[ <V as From<V>>::from ](value: V) -> (same: V)
    ensures
        same == value,
;

/// The maximum packet size in bytes that new settings have: 10 MiB.
pub const DEFAULT_MAX_PACKET_LENGTH: usize = 10 * 1024 * 1024;

/// Settings to configure a client.
#[derive(Debug)]
pub struct ClientNetworkSettings {
    /// Maximum packet size in bytes. A peer that ever exceeds this size is disconnected.
    ///
    /// ## Default
    /// The default is set to 10 MiB.
    pub max_packet_length: usize,
    /// The TLS and transport configuration.
    pub config: ClientConfig,
    /// The local address to send from.
    pub bind_addr: SocketAddr,
    /// The address of the server.
    pub connect_addr: SocketAddr,
    /// The name that the server's certificate is checked against.
    pub server_name: String,
}

impl ClientNetworkSettings {
    /// Settings for a client at `bind_addr` of the server `server_name` at `connect_addr`, with
    /// the default maximum packet size.
    pub fn new(
        config: ClientConfig,
        bind_addr: impl Into<SocketAddr>,
        connect_addr: impl Into<SocketAddr>,
        server_name: impl Into<String>,
    ) -> (settings: Self)
        ensures
            settings.max_packet_length == 10 * 1024 * 1024,
            settings.config == config,
            call_ensures(Into::<SocketAddr>::into, (bind_addr,), settings.bind_addr),
            call_ensures(Into::<SocketAddr>::into, (connect_addr,), settings.connect_addr),
            call_ensures(Into::<String>::into, (server_name,), settings.server_name),
    {
        ClientNetworkSettings {
            max_packet_length: DEFAULT_MAX_PACKET_LENGTH,
            config,
            bind_addr: bind_addr.into(),
            connect_addr: connect_addr.into(),
            server_name: server_name.into(),
        }
    }
}

impl Clone for ClientNetworkSettings {
    /// The same settings once more.
    fn clone(&self) -> (copy: Self)
        ensures
            copy == *self,
    {
        ClientNetworkSettings {
            max_packet_length: self.max_packet_length,
            config: self.config.clone(),
            bind_addr: self.bind_addr,
            connect_addr: self.connect_addr,
            server_name: self.server_name.clone(),
        }
    }
}

/// Settings to configure a server.
#[derive(Debug)]
pub struct ServerNetworkSettings {
    /// The TLS and transport configuration.
    pub config: ServerConfig,
    /// The local address to listen at.
    pub addr: SocketAddr,
    /// Maximum packet size in bytes. A peer that ever exceeds this size is disconnected.
    ///
    /// ## Default
    /// The default is set to 10 MiB.
    pub max_packet_length: usize,
}

impl ServerNetworkSettings {
    /// Settings for a server at `addr`, with the default maximum packet size.
    pub fn new(config: ServerConfig, addr: impl Into<SocketAddr>) -> (settings: Self)
        ensures
            settings.config == config,
            call_ensures(Into::<SocketAddr>::into, (addr,), settings.addr),
            settings.max_packet_length == 10 * 1024 * 1024,
    {
        ServerNetworkSettings {
            config,
            addr: addr.into(),
            max_packet_length: DEFAULT_MAX_PACKET_LENGTH,
        }
    }
}

impl Clone for ServerNetworkSettings {
    /// The same settings once more.
    fn clone(&self) -> (copy: Self)
        ensures
            copy == *self,
    {
        ServerNetworkSettings {
            config: self.config.clone(),
            addr: self.addr,
            max_packet_length: self.max_packet_length,
        }
    }
}

/// Settings that a server was given by octets and a port hold the IPv4 address that has each
/// octet in its place, and that port, and the default maximum packet size.
pub proof fn law_server_settings_hold_what_was_given(
    config: ServerConfig,
    addr: ([u8; 4], u16),
    settings: ServerNetworkSettings,
)
    requires
        call_ensures(ServerNetworkSettings::new, (config, addr), settings),
    ensures
        settings.config == config,
        settings.addr matches SocketAddr::V4(v4) && v4.port == addr.1 && forall|i: int|
            0 <= i < 4 ==> #[trigger] v4.ip@[i] == addr.0@[i],
        settings.max_packet_length == 10485760,
{
    crate::address::law_ipv4_octets_keep_their_places(addr, settings.addr);
}

/// Settings that a client was given by octets and ports hold both IPv4 addresses, the local one
/// and that of the server, with each octet in its place, and the default maximum packet size.
pub proof fn law_client_settings_hold_what_was_given(
    config: ClientConfig,
    bind_addr: ([u8; 4], u16),
    connect_addr: ([u8; 4], u16),
    server_name: String,
    settings: ClientNetworkSettings,
)
    requires
        call_ensures(
            ClientNetworkSettings::new,
            (config, bind_addr, connect_addr, server_name),
            settings,
        ),
    ensures
        settings.config == config,
        settings.bind_addr matches SocketAddr::V4(v4) && v4.port == bind_addr.1 && forall|i: int|
            0 <= i < 4 ==> #[trigger] v4.ip@[i] == bind_addr.0@[i],
        settings.connect_addr matches SocketAddr::V4(v4) && v4.port == connect_addr.1 && forall|
            i: int,
        |
            0 <= i < 4 ==> #[trigger] v4.ip@[i] == connect_addr.0@[i],
        settings.server_name == server_name,
        settings.max_packet_length == 10485760,
{
    crate::address::law_ipv4_octets_keep_their_places(bind_addr, settings.bind_addr);
    crate::address::law_ipv4_octets_keep_their_places(connect_addr, settings.connect_addr);
}

} // verus!
