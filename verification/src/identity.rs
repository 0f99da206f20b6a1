//! The identity packet: who a peer is and what it can do.
//!
//! An identity is the body of the `kdeconnect.identity` packet: the stable
//! device id, a human-readable name, the protocol version, the device type,
//! the two capability sets, and an optionally advertised TCP port. It is
//! sent as the plaintext first line of every TCP connection and as the UDP
//! discovery datagram.

use vstd::prelude::*;

use crate::bytes::clone_bytes;
use crate::json::{Json, JsonView};
use crate::packet::{identity_type, obj_get, packet_type_identity, NetworkPacket};

verus! {

/// "deviceId"
pub open spec fn key_device_id() -> Seq<u8> {
    seq![0x64u8, 0x65u8, 0x76u8, 0x69u8, 0x63u8, 0x65u8, 0x49u8, 0x64u8]
}

/// "deviceName"
pub open spec fn key_device_name() -> Seq<u8> {
    seq![0x64u8, 0x65u8, 0x76u8, 0x69u8, 0x63u8, 0x65u8, 0x4eu8, 0x61u8, 0x6du8, 0x65u8]
}

/// "protocolVersion"
pub open spec fn key_protocol_version() -> Seq<u8> {
    seq![0x70u8, 0x72u8, 0x6fu8, 0x74u8, 0x6fu8, 0x63u8, 0x6fu8, 0x6cu8, 0x56u8, 0x65u8, 0x72u8, 0x73u8, 0x69u8, 0x6fu8, 0x6eu8]
}

/// "deviceType"
pub open spec fn key_device_type() -> Seq<u8> {
    seq![0x64u8, 0x65u8, 0x76u8, 0x69u8, 0x63u8, 0x65u8, 0x54u8, 0x79u8, 0x70u8, 0x65u8]
}

/// "incomingCapabilities"
pub open spec fn key_incoming_capabilities() -> Seq<u8> {
    seq![0x69u8, 0x6eu8, 0x63u8, 0x6fu8, 0x6du8, 0x69u8, 0x6eu8, 0x67u8, 0x43u8, 0x61u8, 0x70u8, 0x61u8, 0x62u8, 0x69u8, 0x6cu8, 0x69u8, 0x74u8, 0x69u8, 0x65u8, 0x73u8]
}

/// "outgoingCapabilities"
pub open spec fn key_outgoing_capabilities() -> Seq<u8> {
    seq![0x6fu8, 0x75u8, 0x74u8, 0x67u8, 0x6fu8, 0x69u8, 0x6eu8, 0x67u8, 0x43u8, 0x61u8, 0x70u8, 0x61u8, 0x62u8, 0x69u8, 0x6cu8, 0x69u8, 0x74u8, 0x69u8, 0x65u8, 0x73u8]
}

/// "tcpPort"
pub open spec fn key_tcp_port() -> Seq<u8> {
    seq![0x74u8, 0x63u8, 0x70u8, 0x50u8, 0x6fu8, 0x72u8, 0x74u8]
}

/// "desktop"
pub open spec fn key_desktop() -> Seq<u8> {
    seq![0x64u8, 0x65u8, 0x73u8, 0x6bu8, 0x74u8, 0x6fu8, 0x70u8]
}

/// "deviceId" as bytes.
pub fn key_device_id_bytes() -> (r: Vec<u8>)
    ensures
        r@ == key_device_id(),
{
    let mut r: Vec<u8> = Vec::new();
    r.push(0x64);
    r.push(0x65);
    r.push(0x76);
    r.push(0x69);
    r.push(0x63);
    r.push(0x65);
    r.push(0x49);
    r.push(0x64);
    assert(r@ =~= key_device_id());
    r
}

/// "deviceName" as bytes.
pub fn key_device_name_bytes() -> (r: Vec<u8>)
    ensures
        r@ == key_device_name(),
{
    let mut r: Vec<u8> = Vec::new();
    r.push(0x64);
    r.push(0x65);
    r.push(0x76);
    r.push(0x69);
    r.push(0x63);
    r.push(0x65);
    r.push(0x4e);
    r.push(0x61);
    r.push(0x6d);
    r.push(0x65);
    assert(r@ =~= key_device_name());
    r
}

/// "protocolVersion" as bytes.
pub fn key_protocol_version_bytes() -> (r: Vec<u8>)
    ensures
        r@ == key_protocol_version(),
{
    let mut r: Vec<u8> = Vec::new();
    r.push(0x70);
    r.push(0x72);
    r.push(0x6f);
    r.push(0x74);
    r.push(0x6f);
    r.push(0x63);
    r.push(0x6f);
    r.push(0x6c);
    r.push(0x56);
    r.push(0x65);
    r.push(0x72);
    r.push(0x73);
    r.push(0x69);
    r.push(0x6f);
    r.push(0x6e);
    assert(r@ =~= key_protocol_version());
    r
}

/// "deviceType" as bytes.
pub fn key_device_type_bytes() -> (r: Vec<u8>)
    ensures
        r@ == key_device_type(),
{
    let mut r: Vec<u8> = Vec::new();
    r.push(0x64);
    r.push(0x65);
    r.push(0x76);
    r.push(0x69);
    r.push(0x63);
    r.push(0x65);
    r.push(0x54);
    r.push(0x79);
    r.push(0x70);
    r.push(0x65);
    assert(r@ =~= key_device_type());
    r
}

/// "incomingCapabilities" as bytes.
pub fn key_incoming_capabilities_bytes() -> (r: Vec<u8>)
    ensures
        r@ == key_incoming_capabilities(),
{
    let mut r: Vec<u8> = Vec::new();
    r.push(0x69);
    r.push(0x6e);
    r.push(0x63);
    r.push(0x6f);
    r.push(0x6d);
    r.push(0x69);
    r.push(0x6e);
    r.push(0x67);
    r.push(0x43);
    r.push(0x61);
    r.push(0x70);
    r.push(0x61);
    r.push(0x62);
    r.push(0x69);
    r.push(0x6c);
    r.push(0x69);
    r.push(0x74);
    r.push(0x69);
    r.push(0x65);
    r.push(0x73);
    assert(r@ =~= key_incoming_capabilities());
    r
}

/// "outgoingCapabilities" as bytes.
pub fn key_outgoing_capabilities_bytes() -> (r: Vec<u8>)
    ensures
        r@ == key_outgoing_capabilities(),
{
    let mut r: Vec<u8> = Vec::new();
    r.push(0x6f);
    r.push(0x75);
    r.push(0x74);
    r.push(0x67);
    r.push(0x6f);
    r.push(0x69);
    r.push(0x6e);
    r.push(0x67);
    r.push(0x43);
    r.push(0x61);
    r.push(0x70);
    r.push(0x61);
    r.push(0x62);
    r.push(0x69);
    r.push(0x6c);
    r.push(0x69);
    r.push(0x74);
    r.push(0x69);
    r.push(0x65);
    r.push(0x73);
    assert(r@ =~= key_outgoing_capabilities());
    r
}

/// "tcpPort" as bytes.
pub fn key_tcp_port_bytes() -> (r: Vec<u8>)
    ensures
        r@ == key_tcp_port(),
{
    let mut r: Vec<u8> = Vec::new();
    r.push(0x74);
    r.push(0x63);
    r.push(0x70);
    r.push(0x50);
    r.push(0x6f);
    r.push(0x72);
    r.push(0x74);
    assert(r@ =~= key_tcp_port());
    r
}

/// "desktop" as bytes.
pub fn key_desktop_bytes() -> (r: Vec<u8>)
    ensures
        r@ == key_desktop(),
{
    let mut r: Vec<u8> = Vec::new();
    r.push(0x64);
    r.push(0x65);
    r.push(0x73);
    r.push(0x6b);
    r.push(0x74);
    r.push(0x6f);
    r.push(0x70);
    assert(r@ =~= key_desktop());
    r
}

/// One peer's identity.
#[derive(Debug, PartialEq, Eq)]
pub struct IdentityPacket {
    /// Opaque, non-empty stable identifier, typically a UUID.
    pub device_id: Vec<u8>,
    pub device_name: Vec<u8>,
    /// Protocol revision; current deployments speak 7.
    pub protocol_version: u8,
    /// "desktop", "phone", and the like.
    pub device_type: Vec<u8>,
    /// Packet types this peer consumes.
    pub incoming_capabilities: Vec<Vec<u8>>,
    /// Packet types this peer produces.
    pub outgoing_capabilities: Vec<Vec<u8>>,
    /// The TCP port this peer listens on, when it advertises one.
    pub tcp_port: Option<u16>,
}

/// Mathematical image of an identity.
#[verifier::ext_equal]
pub struct IdentityView {
    pub device_id: Seq<u8>,
    pub device_name: Seq<u8>,
    pub protocol_version: u8,
    pub device_type: Seq<u8>,
    pub incoming_capabilities: Seq<Seq<u8>>,
    pub outgoing_capabilities: Seq<Seq<u8>>,
    pub tcp_port: Option<u16>,
}

/// The views of a capability list.
pub open spec fn caps_view(caps: Seq<Vec<u8>>) -> Seq<Seq<u8>> {
    Seq::new(caps.len(), |i: int| caps[i]@)
}

impl IdentityPacket {
    pub open spec fn view(&self) -> IdentityView {
        IdentityView {
            device_id: self.device_id@,
            device_name: self.device_name@,
            protocol_version: self.protocol_version,
            device_type: self.device_type@,
            incoming_capabilities: caps_view(self.incoming_capabilities@),
            outgoing_capabilities: caps_view(self.outgoing_capabilities@),
            tcp_port: self.tcp_port,
        }
    }
}

/// Each capability as a JSON string.
pub open spec fn caps_json(caps: Seq<Seq<u8>>) -> Seq<JsonView> {
    Seq::new(caps.len(), |i: int| JsonView::Str(caps[i]))
}

/// The members of the identity body, in the order they are written.
pub open spec fn identity_fields(v: IdentityView) -> Seq<(Seq<u8>, JsonView)> {
    let base = seq![
        (key_device_id(), JsonView::Str(v.device_id)),
        (key_device_name(), JsonView::Str(v.device_name)),
        (key_protocol_version(), JsonView::UInt(v.protocol_version as u64)),
        (key_device_type(), JsonView::Str(v.device_type)),
        (key_incoming_capabilities(), JsonView::Arr(caps_json(v.incoming_capabilities))),
        (key_outgoing_capabilities(), JsonView::Arr(caps_json(v.outgoing_capabilities))),
    ];
    match v.tcp_port {
        Some(p) => base.push((key_tcp_port(), JsonView::UInt(p as u64))),
        None => base,
    }
}

/// A capability list as a JSON array value.
fn caps_to_json(caps: &Vec<Vec<u8>>) -> (r: Json)
    ensures
        r@ == JsonView::Arr(caps_json(caps_view(caps@))),
{
    let n: usize = caps.len();
    let mut items: Vec<Json> = Vec::new();
    let mut i: usize = 0;
    while i < n
        invariant
            n == caps@.len(),
            0 <= i <= n,
            items@.len() == i,
            forall|k: int| 0 <= k < i ==> items@[k]@ == JsonView::Str(caps@[k]@),
        decreases n - i,
    {
        items.push(Json::Str(clone_bytes(caps[i].as_slice())));
        i = i + 1;
    }
    proof {
        crate::json::lemma_views_of(items@);
        assert(crate::json::views_of(items@) =~= caps_json(caps_view(caps@)));
    }
    Json::Arr(items)
}

impl IdentityPacket {
    /// This identity as the JSON body of an identity packet.
    pub fn to_json(&self) -> (r: Json)
        ensures
            r@ == JsonView::Obj(identity_fields(self@)),
    {
        let mut fields: Vec<(Vec<u8>, Json)> = Vec::new();
        fields.push((key_device_id_bytes(), Json::Str(clone_bytes(self.device_id.as_slice()))));
        fields.push(
            (key_device_name_bytes(), Json::Str(clone_bytes(self.device_name.as_slice()))),
        );
        fields.push((key_protocol_version_bytes(), Json::UInt(self.protocol_version as u64)));
        fields.push(
            (key_device_type_bytes(), Json::Str(clone_bytes(self.device_type.as_slice()))),
        );
        fields.push((key_incoming_capabilities_bytes(), caps_to_json(&self.incoming_capabilities)));
        fields.push((key_outgoing_capabilities_bytes(), caps_to_json(&self.outgoing_capabilities)));
        match self.tcp_port {
            Some(p) => {
                fields.push((key_tcp_port_bytes(), Json::UInt(p as u64)));
            },
            None => {
            },
        }
        proof {
            crate::json::lemma_views_of_fields(fields@);
            assert(crate::json::views_of_fields(fields@) =~= identity_fields(self@));
        }
        Json::Obj(fields)
    }
}

impl NetworkPacket {
    /// The identity packet advertising `ident`, freshly stamped.
    pub fn new_identity(ident: &IdentityPacket, now_ms: u64) -> (r: NetworkPacket)
        ensures
            r@.typ == identity_type(),
            r@.body == JsonView::Obj(identity_fields(ident@)),
            r@.id == now_ms,
            r@.payload_size is None,
            r@.port is None,
    {
        NetworkPacket::new(packet_type_identity(), ident.to_json(), now_ms)
    }
}

/// How an identity body is read back; `None` when a required member is
/// missing or of the wrong shape, a capability is not a string, or a number
/// does not fit its field.
pub open spec fn spec_identity_from_json(j: JsonView) -> Option<IdentityView> {
    match j {
        JsonView::Obj(fs) => {
            match (
                obj_get(fs, key_device_id()),
                obj_get(fs, key_device_name()),
                obj_get(fs, key_protocol_version()),
                obj_get(fs, key_device_type()),
                obj_get(fs, key_incoming_capabilities()),
                obj_get(fs, key_outgoing_capabilities()),
            ) {
                (
                    Some(JsonView::Str(id)),
                    Some(JsonView::Str(name)),
                    Some(JsonView::UInt(ver)),
                    Some(JsonView::Str(typ)),
                    Some(JsonView::Arr(inc)),
                    Some(JsonView::Arr(out)),
                ) => {
                    if ver <= 0xff && all_strings(inc) && all_strings(out) {
                        let port = match obj_get(fs, key_tcp_port()) {
                            Some(JsonView::UInt(p)) => if p <= 0xffff {
                                Some(Some(p as u16))
                            } else {
                                None
                            },
                            Some(_) => None,
                            None => Some(None),
                        };
                        match port {
                            Some(port) => Some(
                                IdentityView {
                                    device_id: id,
                                    device_name: name,
                                    protocol_version: ver as u8,
                                    device_type: typ,
                                    incoming_capabilities: strings_of(inc),
                                    outgoing_capabilities: strings_of(out),
                                    tcp_port: port,
                                },
                            ),
                            None => None,
                        }
                    } else {
                        None
                    }
                },
                _ => None,
            }
        },
        _ => None,
    }
}

/// Whether every element is a JSON string.
pub open spec fn all_strings(items: Seq<JsonView>) -> bool {
    forall|i: int| 0 <= i < items.len() ==> (#[trigger] items[i]) is Str
}

/// The contents of a list of JSON strings.
pub open spec fn strings_of(items: Seq<JsonView>) -> Seq<Seq<u8>> {
    Seq::new(items.len(), |i: int| items[i]->Str_0)
}

/// The byte contents of a JSON string array.
fn caps_from_json(items: &Vec<Json>) -> (r: Result<Vec<Vec<u8>>, ()>)
    ensures
        ({
            let vs = crate::json::views_of(items@);
            match r {
                Ok(caps) => all_strings(vs) && caps_view(caps@) == strings_of(vs),
                Err(e) => !all_strings(vs),
            }
        }),
{
    let ghost vs = crate::json::views_of(items@);
    proof {
        crate::json::lemma_views_of(items@);
    }
    let n: usize = items.len();
    let mut caps: Vec<Vec<u8>> = Vec::new();
    let mut i: usize = 0;
    while i < n
        invariant
            n == items@.len(),
            0 <= i <= n,
            vs == crate::json::views_of(items@),
            vs.len() == n,
            forall|k: int| 0 <= k < n ==> vs[k] == items@[k]@,
            caps@.len() == i,
            forall|k: int| 0 <= k < i ==> (#[trigger] vs[k]) is Str,
            forall|k: int| 0 <= k < i ==> caps@[k]@ == vs[k]->Str_0,
        decreases n - i,
    {
        match &items[i] {
            Json::Str(s) => {
                caps.push(clone_bytes(s.as_slice()));
            },
            _ => {
                proof {
                    assert(!(vs[i as int] is Str));
                    assert(!all_strings(vs));
                }
                return Err(());
            },
        }
        i = i + 1;
    }
    proof {
        assert(caps_view(caps@) =~= strings_of(vs));
    }
    Ok(caps)
}

/// Read an identity back from a parsed packet body.
pub fn identity_from_json(body: &Json) -> (r: Result<IdentityPacket, ()>)
    ensures
        match r {
            Ok(ident) => spec_identity_from_json(body@) == Some(ident@),
            Err(e) => spec_identity_from_json(body@) is None,
        },
{
    match body {
        Json::Obj(fields) => {
            let ghost fs = crate::json::views_of_fields(fields@);
            proof {
                crate::json::lemma_views_of_fields(fields@);
                assert(body@ == JsonView::Obj(fs));
            }
            let kid = key_device_id_bytes();
            let device_id: Vec<u8> = match crate::packet::find_field(fields, kid.as_slice()) {
                Some(i) => match &fields[i].1 {
                    Json::Str(s) => clone_bytes(s.as_slice()),
                    _ => {
                        return Err(());
                    },
                },
                None => {
                    return Err(());
                },
            };
            let kname = key_device_name_bytes();
            let device_name: Vec<u8> = match crate::packet::find_field(fields, kname.as_slice()) {
                Some(i) => match &fields[i].1 {
                    Json::Str(s) => clone_bytes(s.as_slice()),
                    _ => {
                        return Err(());
                    },
                },
                None => {
                    return Err(());
                },
            };
            let kver = key_protocol_version_bytes();
            let protocol_version: u8 = match crate::packet::find_field(fields, kver.as_slice()) {
                Some(i) => match &fields[i].1 {
                    Json::UInt(n) => if *n <= 0xff {
                        *n as u8
                    } else {
                        return Err(());
                    },
                    _ => {
                        return Err(());
                    },
                },
                None => {
                    return Err(());
                },
            };
            let ktyp = key_device_type_bytes();
            let device_type: Vec<u8> = match crate::packet::find_field(fields, ktyp.as_slice()) {
                Some(i) => match &fields[i].1 {
                    Json::Str(s) => clone_bytes(s.as_slice()),
                    _ => {
                        return Err(());
                    },
                },
                None => {
                    return Err(());
                },
            };
            let kinc = key_incoming_capabilities_bytes();
            let incoming_capabilities: Vec<Vec<u8>> = match crate::packet::find_field(
                fields,
                kinc.as_slice(),
            ) {
                Some(i) => match &fields[i].1 {
                    Json::Arr(items) => match caps_from_json(items) {
                        Ok(caps) => caps,
                        Err(()) => {
                            return Err(());
                        },
                    },
                    _ => {
                        return Err(());
                    },
                },
                None => {
                    return Err(());
                },
            };
            let kout = key_outgoing_capabilities_bytes();
            let outgoing_capabilities: Vec<Vec<u8>> = match crate::packet::find_field(
                fields,
                kout.as_slice(),
            ) {
                Some(i) => match &fields[i].1 {
                    Json::Arr(items) => match caps_from_json(items) {
                        Ok(caps) => caps,
                        Err(()) => {
                            return Err(());
                        },
                    },
                    _ => {
                        return Err(());
                    },
                },
                None => {
                    return Err(());
                },
            };
            let kport = key_tcp_port_bytes();
            let tcp_port: Option<u16> = match crate::packet::find_field(fields, kport.as_slice()) {
                Some(i) => match &fields[i].1 {
                    Json::UInt(n) => if *n <= 0xffff {
                        Some(*n as u16)
                    } else {
                        return Err(());
                    },
                    _ => {
                        return Err(());
                    },
                },
                None => None,
            };
            let ident = IdentityPacket {
                device_id,
                device_name,
                protocol_version,
                device_type,
                incoming_capabilities,
                outgoing_capabilities,
                tcp_port,
            };
            proof {
                assert(spec_identity_from_json(body@) == Some(ident@));
            }
            Ok(ident)
        },
        _ => Err(()),
    }
}

} // verus!
