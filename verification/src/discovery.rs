//! UDP discovery.
//!
//! While no device is connected, this peer broadcasts its identity packet
//! to the discovery port every few seconds; as soon as one device is
//! active the broadcast is suppressed. The datagram is the identity
//! packet's JSON object without a trailing delimiter.

use vstd::prelude::*;

use crate::identity::{identity_fields, IdentityPacket};
use crate::json::JsonView;
use crate::packet::{identity_type, NetworkPacket};

verus! {

/// Seconds between broadcast ticks.
pub const DISCOVERY_INTERVAL_SECS: u64 = 5;

/// The broadcast decision at one tick: an identity packet goes out exactly
/// when no device is active at that moment.
pub fn should_broadcast(active_device_count: usize) -> (r: bool)
    ensures
        r == (active_device_count == 0),
{
    active_device_count == 0
}

/// The identity packet this peer advertises, freshly stamped.
pub fn make_identity_packet(ident: &IdentityPacket, now_ms: u64) -> (r: NetworkPacket)
    ensures
        r@.typ == identity_type(),
        r@.body == JsonView::Obj(identity_fields(ident@)),
        r@.id == now_ms,
        r@.payload_size is None,
        r@.port is None,
{
    NetworkPacket::new_identity(ident, now_ms)
}

} // verus!
