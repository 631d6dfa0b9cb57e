use vstd::prelude::*;

verus! {

/// IPv4 address (in host order, `a.b.c.d` as `a << 24 | b << 16 | c << 8 | d`)
/// and port of a network endpoint.
#[derive(Clone, Copy, Debug, PartialEq, Eq, Structural, Hash)]
pub struct PeerAddr {
    pub ip: u32,
    pub port: u16,
}

/// Default multicast group for discovery, 224.0.0.23.
pub const MULTICAST_GROUP: u32 = 0xE000_0017;

/// Default well-known port of the discovery channel.
pub const MULTICAST_PORT: u16 = 7399;

/// The unspecified address, 0.0.0.0: every interface.
pub const ANY_INTERFACE: u32 = 0;

/// First port tried for the unicast data endpoint.
pub const PORT_RANGE_START: u16 = 7400;

/// One past the last port tried for the unicast data endpoint.
pub const PORT_RANGE_END: u16 = 8000;

/// Default time after which the whole peer registry is forgotten.
pub const PEER_TTL_MS: u64 = 5000;

/// Default period of the driving loop.
pub const POLL_INTERVAL_MS: u64 = 10;

/// Largest encoded size of one datagram.
pub const MAX_DATAGRAM: usize = 128;

/// Network parameters, chosen once at startup and handed to the transport and
/// the engine.
pub struct NetworkConfig {
    pub multicast_group: u32,
    pub multicast_port: u16,
    pub interface: u32,
    pub port_range_start: u16,
    pub port_range_end: u16,
    pub peer_ttl_ms: u64,
    pub poll_interval_ms: u64,
}

impl NetworkConfig {
    /// The default parameters.
    pub fn standard() -> (r: NetworkConfig)
        ensures
            r.multicast_group == MULTICAST_GROUP,
            r.multicast_port == MULTICAST_PORT,
            r.interface == ANY_INTERFACE,
            r.port_range_start == PORT_RANGE_START,
            r.port_range_end == PORT_RANGE_END,
            r.peer_ttl_ms == PEER_TTL_MS,
            r.poll_interval_ms == POLL_INTERVAL_MS,
    {
        NetworkConfig {
            multicast_group: MULTICAST_GROUP,
            multicast_port: MULTICAST_PORT,
            interface: ANY_INTERFACE,
            port_range_start: PORT_RANGE_START,
            port_range_end: PORT_RANGE_END,
            peer_ttl_ms: PEER_TTL_MS,
            poll_interval_ms: POLL_INTERVAL_MS,
        }
    }

    /// Where announcements are sent: the multicast group on the discovery port.
    pub fn discovery_addr(&self) -> (r: PeerAddr)
        ensures
            r == (PeerAddr { ip: self.multicast_group, port: self.multicast_port }),
    {
        PeerAddr { ip: self.multicast_group, port: self.multicast_port }
    }
}

} // verus!
