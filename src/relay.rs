//! Settings of the relayer that feeds the client.
use vstd::prelude::*;

verus! {

/// How the relayer runs.
#[derive(Copy, Debug, Clone, PartialEq, Eq, Structural)]
pub enum Mode {
    /// Run without trying to relay packets or query channel state
    Light,
}

/// Whether the relayer forwards packets that were sent; on by default.
#[derive(Copy, Debug, Clone, PartialEq, Eq, Structural)]
pub struct PacketRelay {
    pub relay_packets: bool,
}

impl PacketRelay {
    /// Packet relaying switched on.
    pub fn new() -> (r: Self)
        ensures
            r.relay_packets,
    {
        PacketRelay { relay_packets: true }
    }
}

/// Returns status of send packet relay
pub fn packet_relay_status(relay: &PacketRelay) -> (r: bool)
    ensures
        r == relay.relay_packets,
{
    relay.relay_packets
}

/// Sets packet relay status
pub fn set_relay_status(relay: &mut PacketRelay, status: bool)
    ensures
        final(relay).relay_packets == status,
{
    relay.relay_packets = status;
}

} // verus!
