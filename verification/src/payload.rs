//! Out-of-band payload transfer.
//!
//! A packet that carries a payload is stamped with the payload's size and
//! the port of a fresh ephemeral server; the server serves exactly those
//! bytes to the first client and is bounded by a wall-clock timeout. On the
//! receiving side the fetched byte count must equal the declared size
//! exactly, otherwise the fetch fails and nothing downstream sees the bytes.

use vstd::prelude::*;

use crate::packet::{NetworkPacket, PacketView};

verus! {

/// Seconds an ephemeral payload server stays alive waiting for its first
/// client.
pub const PAYLOAD_SERVER_TIMEOUT_SECS: u64 = 60;

/// What an ephemeral payload server serves: the payload bytes, on the port
/// the packet was stamped with.
pub struct PayloadServePlan {
    pub bytes: Vec<u8>,
    pub port: u16,
}

/// Stamp a packet with its payload metadata and hand back the serve plan.
/// The plan serves exactly as many bytes as the packet declares, on exactly
/// the declared port: every outbound packet that declares a `payloadSize`
/// is paired with a server for that many bytes.
pub fn plan_payload_serve(packet: &mut NetworkPacket, payload: Vec<u8>, port: u16)
    -> (plan: PayloadServePlan)
    ensures
        final(packet)@ == (PacketView {
            payload_size: Some(payload@.len() as u64),
            port: Some(port),
            ..old(packet)@
        }),
        plan.bytes@ == payload@,
        plan.port == port,
        final(packet)@.payload_size == Some(plan.bytes@.len() as u64),
        final(packet)@.port == Some(plan.port),
{
    let size: u64 = payload.len() as u64;
    packet.set_payload(size, port);
    PayloadServePlan { bytes: payload, port }
}

/// Why an inbound payload fetch failed.
#[derive(Debug, Clone, Copy, PartialEq, Eq, Structural)]
pub enum PayloadError {
    /// The stream ended after a different number of bytes than the packet
    /// declared.
    SizeMismatch { fetched: u64, requested: u64 },
}

/// Accept fetched payload bytes only when exactly as many arrived as the
/// packet declared; a mismatch is a hard failure and the bytes are dropped.
pub fn check_fetched_payload(buf: Vec<u8>, size: u64) -> (r: Result<Vec<u8>, PayloadError>)
    ensures
        match r {
            Ok(b) => buf@.len() == size && b@ == buf@,
            Err(e) => buf@.len() != size && e == (PayloadError::SizeMismatch {
                fetched: buf@.len() as u64,
                requested: size,
            }),
        },
        r is Ok <==> buf@.len() == size,
{
    let fetched: u64 = buf.len() as u64;
    if fetched == size {
        Ok(buf)
    } else {
        Err(PayloadError::SizeMismatch { fetched, requested: size })
    }
}

} // verus!
