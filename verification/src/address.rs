//! Addresses of network sockets, as plain values.
use vstd::prelude::*;
use vstd::std_specs::convert::FromSpecImpl;

verus! {

/// An IPv4 address, by its octets, and a port.
#[derive(Clone, Copy, Debug, PartialEq, Eq)]
pub struct SocketAddrV4 {
    pub ip: [u8; 4],
    pub port: u16,
}

/// An IPv6 address, by its octets, a port, the flow information and the scope.
#[derive(Clone, Copy, Debug, PartialEq, Eq)]
pub struct SocketAddrV6 {
    pub ip: [u8; 16],
    pub port: u16,
    pub flowinfo: u32,
    pub scope_id: u32,
}

/// The address of a socket.
#[derive(Clone, Copy, Debug, PartialEq, Eq)]
pub enum SocketAddr {
    /// One of IPv4.
    V4(SocketAddrV4),
    /// One of IPv6.
    V6(SocketAddrV6),
}

impl From<SocketAddrV4> for SocketAddr {
    /// This IPv4 address.
    fn from(addr: SocketAddrV4) -> (same: Self)
        ensures
            same matches SocketAddr::V4(v4) && v4.ip == addr.ip && v4.port == addr.port,
    {
        SocketAddr::V4(addr)
    }
}

impl FromSpecImpl<SocketAddrV4> for SocketAddr {
    open spec fn obeys_from_spec() -> bool {
        true
    }

    open spec fn from_spec(addr: SocketAddrV4) -> Self {
        SocketAddr::V4(addr)
    }
}

impl From<SocketAddrV6> for SocketAddr {
    /// This IPv6 address.
    fn from(addr: SocketAddrV6) -> (same: Self)
        ensures
            same matches SocketAddr::V6(v6) && v6.ip == addr.ip && v6.port == addr.port
                && v6.flowinfo == addr.flowinfo && v6.scope_id == addr.scope_id,
    {
        SocketAddr::V6(addr)
    }
}

impl FromSpecImpl<SocketAddrV6> for SocketAddr {
    open spec fn obeys_from_spec() -> bool {
        true
    }

    open spec fn from_spec(addr: SocketAddrV6) -> Self {
        SocketAddr::V6(addr)
    }
}

impl From<([u8; 4], u16)> for SocketAddr {
    /// The IPv4 address with these octets and this port.
    fn from(pieces: ([u8; 4], u16)) -> (addr: Self)
        ensures
            addr matches SocketAddr::V4(v4) && v4.port == pieces.1 && forall|i: int|
                0 <= i < 4 ==> #[trigger] v4.ip@[i] == pieces.0@[i],
    {
        SocketAddr::V4(SocketAddrV4 { ip: pieces.0, port: pieces.1 })
    }
}

impl FromSpecImpl<([u8; 4], u16)> for SocketAddr {
    open spec fn obeys_from_spec() -> bool {
        true
    }

    open spec fn from_spec(pieces: ([u8; 4], u16)) -> Self {
        SocketAddr::V4(SocketAddrV4 { ip: pieces.0, port: pieces.1 })
    }
}

impl From<([u8; 16], u16)> for SocketAddr {
    /// The IPv6 address with these octets and this port, without flow information and scope.
    fn from(pieces: ([u8; 16], u16)) -> (addr: Self)
        ensures
            addr matches SocketAddr::V6(v6) && v6.port == pieces.1 && v6.flowinfo == 0
                && v6.scope_id == 0 && forall|i: int|
                0 <= i < 16 ==> #[trigger] v6.ip@[i] == pieces.0@[i],
    {
        SocketAddr::V6(
            SocketAddrV6 { ip: pieces.0, port: pieces.1, flowinfo: 0, scope_id: 0 },
        )
    }
}

impl FromSpecImpl<([u8; 16], u16)> for SocketAddr {
    open spec fn obeys_from_spec() -> bool {
        true
    }

    open spec fn from_spec(pieces: ([u8; 16], u16)) -> Self {
        SocketAddr::V6(
            SocketAddrV6 { ip: pieces.0, port: pieces.1, flowinfo: 0, scope_id: 0 },
        )
    }
}

/// The two octets of an address segment, the high one first.
pub open spec fn segment_octets(segment: u16) -> (u8, u8) {
    ((segment / 256) as u8, (segment % 256) as u8)
}

impl From<([u16; 8], u16)> for SocketAddr {
    /// The IPv6 address with these segments and this port, without flow information and scope.
    fn from(pieces: ([u16; 8], u16)) -> (addr: Self)
        ensures
            addr matches SocketAddr::V6(v6) && v6.port == pieces.1 && v6.flowinfo == 0
                && v6.scope_id == 0 && forall|i: int|
                0 <= i < 8 ==> v6.ip@[2 * i] * 256 + v6.ip@[2 * i + 1] == #[trigger] pieces.0@[i],
    {
        let s: [u16; 8] = pieces.0;
        SocketAddr::V6(
            SocketAddrV6 {
                ip: [
                    (s[0] / 256) as u8,
                    (s[0] % 256) as u8,
                    (s[1] / 256) as u8,
                    (s[1] % 256) as u8,
                    (s[2] / 256) as u8,
                    (s[2] % 256) as u8,
                    (s[3] / 256) as u8,
                    (s[3] % 256) as u8,
                    (s[4] / 256) as u8,
                    (s[4] % 256) as u8,
                    (s[5] / 256) as u8,
                    (s[5] % 256) as u8,
                    (s[6] / 256) as u8,
                    (s[6] % 256) as u8,
                    (s[7] / 256) as u8,
                    (s[7] % 256) as u8,
                ],
                port: pieces.1,
                flowinfo: 0,
                scope_id: 0,
            },
        )
    }
}

impl FromSpecImpl<([u16; 8], u16)> for SocketAddr {
    open spec fn obeys_from_spec() -> bool {
        true
    }

    open spec fn from_spec(pieces: ([u16; 8], u16)) -> Self {
        let s = pieces.0;
        SocketAddr::V6(
            SocketAddrV6 {
                ip: [
                    segment_octets(s[0]).0,
                    segment_octets(s[0]).1,
                    segment_octets(s[1]).0,
                    segment_octets(s[1]).1,
                    segment_octets(s[2]).0,
                    segment_octets(s[2]).1,
                    segment_octets(s[3]).0,
                    segment_octets(s[3]).1,
                    segment_octets(s[4]).0,
                    segment_octets(s[4]).1,
                    segment_octets(s[5]).0,
                    segment_octets(s[5]).1,
                    segment_octets(s[6]).0,
                    segment_octets(s[6]).1,
                    segment_octets(s[7]).0,
                    segment_octets(s[7]).1,
                ],
                port: pieces.1,
                flowinfo: 0,
                scope_id: 0,
            },
        )
    }
}

/// Octets and a port make the IPv4 address that has each octet in its place, and that port.
pub proof fn law_ipv4_octets_keep_their_places(pieces: ([u8; 4], u16), addr: SocketAddr)
    requires
        call_ensures(Into::<SocketAddr>::into, (pieces,), addr),
    ensures
        addr matches SocketAddr::V4(v4) && v4.port == pieces.1 && forall|i: int|
            0 <= i < 4 ==> #[trigger] v4.ip@[i] == pieces.0@[i],
{
}

/// Octets and a port make the IPv6 address that has each octet in its place, and that port, with
/// no flow information and no scope.
pub proof fn law_ipv6_octets_keep_their_places(pieces: ([u8; 16], u16), addr: SocketAddr)
    requires
        call_ensures(Into::<SocketAddr>::into, (pieces,), addr),
    ensures
        addr matches SocketAddr::V6(v6) && v6.port == pieces.1 && v6.flowinfo == 0 && v6.scope_id
            == 0 && forall|i: int| 0 <= i < 16 ==> #[trigger] v6.ip@[i] == pieces.0@[i],
{
}

/// Segments and a port make the IPv6 address in which each segment is spelled by the two octets
/// at its place, the high one first, and that port, with no flow information and no scope.
pub proof fn law_ipv6_octets_spell_the_segments(pieces: ([u16; 8], u16), addr: SocketAddr)
    requires
        call_ensures(Into::<SocketAddr>::into, (pieces,), addr),
    ensures
        addr matches SocketAddr::V6(v6) && v6.port == pieces.1 && v6.flowinfo == 0 && v6.scope_id
            == 0 && forall|i: int|
            0 <= i < 8 ==> v6.ip@[2 * i] * 256 + v6.ip@[2 * i + 1] == #[trigger] pieces.0@[i],
{
}

/// An address of either version stays what it is.
pub proof fn law_address_stays_what_it_is(
    v4: SocketAddrV4,
    from_v4: SocketAddr,
    v6: SocketAddrV6,
    from_v6: SocketAddr,
)
    requires
        call_ensures(Into::<SocketAddr>::into, (v4,), from_v4),
        call_ensures(Into::<SocketAddr>::into, (v6,), from_v6),
    ensures
        from_v4 matches SocketAddr::V4(same) && same.ip == v4.ip && same.port == v4.port,
        from_v6 matches SocketAddr::V6(same) && same.ip == v6.ip && same.port == v6.port
            && same.flowinfo == v6.flowinfo && same.scope_id == v6.scope_id,
{
}

} // verus!
