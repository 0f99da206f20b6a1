//! Per-connection protocol decisions.
//!
//! A connection starts with one plaintext line that must be an identity
//! packet; every later line arrives inside TLS and is either a pairing
//! request — answered in place, no plugin ever observes it — or a packet to
//! dispatch to the device's plugins. A line that does not parse is dropped
//! and the connection goes on.

use vstd::prelude::*;

use crate::identity::{identity_from_json, spec_identity_from_json, IdentityPacket};
use crate::json::JsonView;
use crate::packet::{
    identity_type, pair_type, parse_packet, spec_parse_packet, NetworkPacket,
};

verus! {

/// Seconds a closed connection waits before issuing its fenced removal, so
/// that a reconnecting peer can replace the record first.
pub const REMOVE_GRACE_SECS: u64 = 1;

/// Why the plaintext handshake line was rejected; the connection closes.
#[derive(Debug, Clone, Copy, PartialEq, Eq, Structural)]
pub enum HandshakeError {
    /// The line is not a packet.
    NotAPacket,
    /// The first packet's type is not the identity type.
    NotIdentity,
    /// The identity body is malformed.
    BadIdentity,
}

/// Read the plaintext first line of a connection: it must parse as a
/// packet of the identity type with a well-formed identity body.
pub fn handle_first_line(line: &Vec<u8>) -> (r: Result<IdentityPacket, HandshakeError>)
    requires
        line@.len() < usize::MAX,
    ensures
        match r {
            Ok(ident) => spec_parse_packet(line@) is Some
                && spec_parse_packet(line@)->0.typ == identity_type()
                && spec_identity_from_json(spec_parse_packet(line@)->0.body) == Some(ident@),
            Err(e) => match e {
                HandshakeError::NotAPacket => spec_parse_packet(line@) is None,
                HandshakeError::NotIdentity => spec_parse_packet(line@) is Some
                    && spec_parse_packet(line@)->0.typ != identity_type(),
                HandshakeError::BadIdentity => spec_parse_packet(line@) is Some
                    && spec_parse_packet(line@)->0.typ == identity_type()
                    && spec_identity_from_json(spec_parse_packet(line@)->0.body) is None,
            },
        },
{
    match parse_packet(line) {
        Ok(packet) => {
            if packet.is_identity() {
                match identity_from_json(&packet.body) {
                    Ok(ident) => Ok(ident),
                    Err(()) => Err(HandshakeError::BadIdentity),
                }
            } else {
                Err(HandshakeError::NotIdentity)
            }
        },
        Err(()) => Err(HandshakeError::NotAPacket),
    }
}

/// What the connection loop does with one received line.
pub enum InboundAction {
    /// The line was a pairing request: write this acknowledgement back and
    /// continue; no plugin observes the request.
    ReplyPair(NetworkPacket),
    /// Hand this packet to the device's plugin repository.
    Dispatch(NetworkPacket),
    /// The line did not parse; it is dropped and the connection continues.
    Drop,
}

/// The steady-state decision for one received line: pairing requests are
/// acknowledged in place with `{"pair": true}`, anything else that parses
/// is dispatched, and garbage is dropped.
pub fn handle_line(line: &Vec<u8>, now_ms: u64) -> (r: InboundAction)
    requires
        line@.len() < usize::MAX,
    ensures
        match r {
            InboundAction::ReplyPair(reply) => {
                &&& spec_parse_packet(line@) is Some
                &&& spec_parse_packet(line@)->0.typ == pair_type()
                &&& reply@.typ == pair_type()
                &&& reply@.body == JsonView::Obj(
                    seq![(seq![0x70u8, 0x61u8, 0x69u8, 0x72u8], JsonView::Bool(true))],
                )
                &&& reply@.id == now_ms
                &&& reply@.payload_size is None
                &&& reply@.port is None
            },
            InboundAction::Dispatch(p) => spec_parse_packet(line@) == Some(p@)
                && p@.typ != pair_type(),
            InboundAction::Drop => spec_parse_packet(line@) is None,
        },
{
    match parse_packet(line) {
        Ok(packet) => {
            if packet.is_pair() {
                InboundAction::ReplyPair(NetworkPacket::new_pair(true, now_ms))
            } else {
                InboundAction::Dispatch(packet)
            }
        },
        Err(()) => InboundAction::Drop,
    }
}

} // verus!
