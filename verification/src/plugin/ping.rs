//! The ping plugin's data: a ping packet with an optional message.

use vstd::prelude::*;

use crate::bytes::clone_bytes;
use crate::json::{Json, JsonView};
use crate::packet::NetworkPacket;

verus! {

/// "message"
pub open spec fn key_message() -> Seq<u8> {
    seq![0x6du8, 0x65u8, 0x73u8, 0x73u8, 0x61u8, 0x67u8, 0x65u8]
}

/// "message" as bytes.
fn key_message_bytes() -> (r: Vec<u8>)
    ensures
        r@ == key_message(),
{
    let mut r: Vec<u8> = Vec::new();
    r.push(0x6d);
    r.push(0x65);
    r.push(0x73);
    r.push(0x73);
    r.push(0x61);
    r.push(0x67);
    r.push(0x65);
    assert(r@ =~= key_message());
    r
}

/// "kdeconnect.ping"
pub open spec fn ping_type() -> Seq<u8> {
    seq![0x6bu8, 0x64u8, 0x65u8, 0x63u8, 0x6fu8, 0x6eu8, 0x6eu8, 0x65u8, 0x63u8, 0x74u8, 0x2eu8, 0x70u8, 0x69u8, 0x6eu8, 0x67u8]
}

/// "kdeconnect.ping" as bytes.
fn ping_type_bytes() -> (r: Vec<u8>)
    ensures
        r@ == ping_type(),
{
    let mut r: Vec<u8> = Vec::new();
    r.push(0x6b);
    r.push(0x64);
    r.push(0x65);
    r.push(0x63);
    r.push(0x6f);
    r.push(0x6e);
    r.push(0x6e);
    r.push(0x65);
    r.push(0x63);
    r.push(0x74);
    r.push(0x2e);
    r.push(0x70);
    r.push(0x69);
    r.push(0x6e);
    r.push(0x67);
    assert(r@ =~= ping_type());
    r
}

/// A ping packet, with a message only when one is given (the member is
/// left out otherwise).
pub fn ping_packet(message: Option<&Vec<u8>>, now_ms: u64) -> (r: NetworkPacket)
    ensures
        r@.typ == ping_type(),
        r@.id == now_ms,
        r@.payload_size is None,
        r@.port is None,
        match message {
            Some(m) => r@.body == JsonView::Obj(seq![(key_message(), JsonView::Str(m@))]),
            None => r@.body == JsonView::Obj(Seq::<(Seq<u8>, JsonView)>::empty()),
        },
{
    let mut fields: Vec<(Vec<u8>, Json)> = Vec::new();
    match message {
        Some(m) => {
            fields.push((key_message_bytes(), Json::Str(clone_bytes(m.as_slice()))));
            proof {
                crate::json::lemma_views_of_fields(fields@);
                assert(crate::json::views_of_fields(fields@)
                    =~= seq![(key_message(), JsonView::Str(m@))]);
            }
        },
        None => {
            proof {
                crate::json::lemma_views_of_fields(fields@);
                assert(crate::json::views_of_fields(fields@)
                    =~= Seq::<(Seq<u8>, JsonView)>::empty());
            }
        },
    }
    NetworkPacket::new(ping_type_bytes(), Json::Obj(fields), now_ms)
}

} // verus!
