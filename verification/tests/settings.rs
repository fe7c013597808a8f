use std::sync::Arc;

use bevy_spicy_networking_tokio_quinn::{
    ClientConfig, ClientNetworkSettings, ServerConfig, ServerNetworkSettings, SocketAddr,
    SocketAddrV4, SocketAddrV6, DEFAULT_MAX_PACKET_LENGTH,
};

fn client_config() -> ClientConfig {
    ClientConfig::with_root_certificates(rustls::RootCertStore::empty())
}

fn server_config() -> ServerConfig {
    let crypto = rustls::ServerConfig::builder()
        .with_safe_defaults()
        .with_no_client_auth()
        .with_cert_resolver(Arc::new(rustls::server::ResolvesServerCertUsingSni::new()));
    ServerConfig::with_crypto(Arc::new(crypto))
}

#[test]
fn default_packet_limit_is_ten_mebibytes() {
    assert_eq!(DEFAULT_MAX_PACKET_LENGTH, 10_485_760);
    let server = ServerNetworkSettings::new(server_config(), ([0, 0, 0, 0], 5000));
    assert_eq!(server.max_packet_length, 10_485_760);
    let client = ClientNetworkSettings::new(
        client_config(),
        ([0, 0, 0, 0], 0),
        ([127, 0, 0, 1], 5000),
        "localhost",
    );
    assert_eq!(client.max_packet_length, 10_485_760);
    assert_eq!(client.server_name, "localhost");
}

#[test]
fn client_settings_keep_their_parts_apart() {
    let connect_addr = SocketAddr::V6(SocketAddrV6 { ip: [1; 16], port: 9, flowinfo: 3, scope_id: 4 });
    let client = ClientNetworkSettings::new(
        client_config(),
        ([10, 0, 0, 7], 4000),
        connect_addr,
        String::from("example.org"),
    );
    assert_eq!(client.bind_addr, SocketAddr::V4(SocketAddrV4 { ip: [10, 0, 0, 7], port: 4000 }));
    assert_eq!(client.connect_addr, connect_addr);
    assert_eq!(client.server_name, "example.org");
}

#[test]
fn configurations_are_passed_on() {
    let mut config = client_config();
    config.version(77);
    let client = ClientNetworkSettings::new(config, ([0; 4], 0), ([0; 4], 1), "x");
    assert!(format!("{:?}", client.config).contains("77"));
    let mut config = server_config();
    config.concurrent_connections(31_337);
    let server = ServerNetworkSettings::new(config, ([0; 4], 0));
    assert!(format!("{:?}", server.config).contains("31337"));
}

#[test]
fn octets_make_ipv6_addresses() {
    let server = ServerNetworkSettings::new(server_config(), ([2u8; 16], 443));
    assert_eq!(
        server.addr,
        SocketAddr::V6(SocketAddrV6 { ip: [2; 16], port: 443, flowinfo: 0, scope_id: 0 })
    );
}

#[test]
fn addresses_of_one_family_are_kept() {
    let v4 = SocketAddrV4 { ip: [9, 8, 7, 6], port: 5 };
    let v6 = SocketAddrV6 { ip: [7; 16], port: 6, flowinfo: 1, scope_id: 2 };
    let client = ClientNetworkSettings::new(client_config(), v4, v6, "x");
    assert_eq!(client.bind_addr, SocketAddr::V4(v4));
    assert_eq!(client.connect_addr, SocketAddr::V6(v6));
}

#[test]
fn segments_make_ipv6_addresses() {
    let segments: [u16; 8] = [0x2001, 0xdb8, 0, 0x00ff, 0xff00, 1, 0xffff, 0x1234];
    let server = ServerNetworkSettings::new(server_config(), (segments, 8443));
    assert_eq!(
        server.addr,
        SocketAddr::V6(SocketAddrV6 {
            ip: [
                0x20, 0x01, 0x0d, 0xb8, 0, 0, 0, 0xff, 0xff, 0, 0, 1, 0xff, 0xff, 0x12, 0x34,
            ],
            port: 8443,
            flowinfo: 0,
            scope_id: 0,
        })
    );
}

#[test]
fn cloned_settings_are_the_same() {
    let mut config = client_config();
    config.version(78);
    let mut client = ClientNetworkSettings::new(config, ([1; 4], 1), ([2; 4], 2), "name");
    client.max_packet_length = 12;
    let copy = client.clone();
    assert_eq!(copy.max_packet_length, 12);
    assert_eq!(copy.bind_addr, client.bind_addr);
    assert_eq!(copy.connect_addr, client.connect_addr);
    assert_eq!(copy.server_name, "name");
    assert!(Arc::ptr_eq(&copy.config.transport, &client.config.transport));
    assert!(Arc::ptr_eq(&copy.config.crypto, &client.config.crypto));
    assert_eq!(format!("{:?}", copy.config), format!("{:?}", client.config));

    let mut config = server_config();
    config.use_retry(true);
    let mut server = ServerNetworkSettings::new(config, ([3; 4], 3));
    server.max_packet_length = 13;
    let copy = server.clone();
    assert_eq!(copy.max_packet_length, 13);
    assert_eq!(copy.addr, server.addr);
    assert!(Arc::ptr_eq(&copy.config.transport, &server.config.transport));
    assert!(Arc::ptr_eq(&copy.config.crypto, &server.config.crypto));
    assert_eq!(format!("{:?}", copy.config), format!("{:?}", server.config));
}
