//! Network packets and their wire form.
//!
//! A packet is one JSON object — `type`, `body`, `id`, and optional payload
//! metadata — serialized on a single line and terminated by one `0x0A`
//! byte. Identity packets travel as the plaintext first line of every TCP
//! connection and as the UDP discovery datagram; everything later flows
//! inside TLS in the same form.

use vstd::prelude::*;

use crate::bytes::clone_bytes;
use crate::json::{
    escape_str, is_digit, parse_json, ser, spec_parse_all, to_json_bytes, Json, JsonView,
    lemma_escape_no_newline, lemma_parse_all_ser,
};


verus! {

/// Spec image of a byte-string literal used as a JSON key or type tag.
pub open spec fn key_type() -> Seq<u8> {
    seq![0x74u8, 0x79u8, 0x70u8, 0x65u8]
}

pub open spec fn key_body() -> Seq<u8> {
    seq![0x62u8, 0x6fu8, 0x64u8, 0x79u8]
}

pub open spec fn key_id() -> Seq<u8> {
    seq![0x69u8, 0x64u8]
}

/// "payloadSize"
pub open spec fn key_payload_size() -> Seq<u8> {
    seq![0x70u8, 0x61u8, 0x79u8, 0x6cu8, 0x6fu8, 0x61u8, 0x64u8, 0x53u8, 0x69u8, 0x7au8, 0x65u8]
}

/// "payloadTransferInfo"
pub open spec fn key_payload_transfer_info() -> Seq<u8> {
    seq![
        0x70u8, 0x61u8, 0x79u8, 0x6cu8, 0x6fu8, 0x61u8, 0x64u8, 0x54u8, 0x72u8, 0x61u8, 0x6eu8,
        0x73u8, 0x66u8, 0x65u8, 0x72u8, 0x49u8, 0x6eu8, 0x66u8, 0x6fu8,
    ]
}

pub open spec fn key_port() -> Seq<u8> {
    seq![0x70u8, 0x6fu8, 0x72u8, 0x74u8]
}

/// "kdeconnect.identity"
pub open spec fn identity_type() -> Seq<u8> {
    seq![
        0x6bu8, 0x64u8, 0x65u8, 0x63u8, 0x6fu8, 0x6eu8, 0x6eu8, 0x65u8, 0x63u8, 0x74u8, 0x2eu8,
        0x69u8, 0x64u8, 0x65u8, 0x6eu8, 0x74u8, 0x69u8, 0x74u8, 0x79u8,
    ]
}

/// "kdeconnect.pair"
pub open spec fn pair_type() -> Seq<u8> {
    seq![
        0x6bu8, 0x64u8, 0x65u8, 0x63u8, 0x6fu8, 0x6eu8, 0x6eu8, 0x65u8, 0x63u8, 0x74u8, 0x2eu8,
        0x70u8, 0x61u8, 0x69u8, 0x72u8,
    ]
}

/// "kdeconnect.identity" as bytes.
pub fn packet_type_identity() -> (r: Vec<u8>)
    ensures
        r@ == identity_type(),
{
    let mut r: Vec<u8> = Vec::new();
    r.push(0x6b);
    r.push(0x64);
    r.push(0x65);
    r.push(0x63);
    r.push(0x6f);
    r.push(0x6e);
    r.push(0x6e);
    r.push(0x65);
    r.push(0x63);
    r.push(0x74);
    r.push(0x2e);
    r.push(0x69);
    r.push(0x64);
    r.push(0x65);
    r.push(0x6e);
    r.push(0x74);
    r.push(0x69);
    r.push(0x74);
    r.push(0x79);
    assert(r@ =~= identity_type());
    r
}

/// "kdeconnect.pair" as bytes.
pub fn packet_type_pair() -> (r: Vec<u8>)
    ensures
        r@ == pair_type(),
{
    let mut r: Vec<u8> = Vec::new();
    r.push(0x6b);
    r.push(0x64);
    r.push(0x65);
    r.push(0x63);
    r.push(0x6f);
    r.push(0x6e);
    r.push(0x6e);
    r.push(0x65);
    r.push(0x63);
    r.push(0x74);
    r.push(0x2e);
    r.push(0x70);
    r.push(0x61);
    r.push(0x69);
    r.push(0x72);
    assert(r@ =~= pair_type());
    r
}

/// Where the payload bytes of a packet are served.
#[derive(Debug, Clone, Copy, PartialEq, Eq, Structural)]
pub struct PayloadTransferInfo {
    pub port: u16,
}

/// One protocol packet.
#[derive(Debug, PartialEq, Eq)]
pub struct NetworkPacket {
    /// The packet-type string partitioning packets into plugin capabilities.
    pub typ: Vec<u8>,
    /// The type-specific body object.
    pub body: Json,
    /// Millisecond wall-clock timestamp; transport metadata, never used for
    /// ordering.
    pub id: u64,
    /// Length in bytes of the out-of-band payload, when one accompanies the
    /// packet.
    pub payload_size: Option<u64>,
    /// Where that payload is served.
    pub payload_transfer_info: Option<PayloadTransferInfo>,
}

/// Mathematical image of a packet.
#[verifier::ext_equal]
pub struct PacketView {
    pub typ: Seq<u8>,
    pub body: JsonView,
    pub id: u64,
    pub payload_size: Option<u64>,
    pub port: Option<u16>,
}

impl NetworkPacket {
    pub open spec fn view(&self) -> PacketView {
        PacketView {
            typ: self.typ@,
            body: self.body@,
            id: self.id,
            payload_size: self.payload_size,
            port: match self.payload_transfer_info {
                Some(i) => Some(i.port),
                None => None,
            },
        }
    }
}

/// The JSON object a packet is written as: `type`, `body`, `id`, then the
/// payload metadata when present.
pub open spec fn packet_json(p: PacketView) -> Seq<(Seq<u8>, JsonView)> {
    let base = seq![
        (key_type(), JsonView::Str(p.typ)),
        (key_body(), p.body),
        (key_id(), JsonView::UInt(p.id)),
    ];
    let with_size = match p.payload_size {
        Some(sz) => base.push((key_payload_size(), JsonView::UInt(sz))),
        None => base,
    };
    match p.port {
        Some(port) => with_size.push(
            (
                key_payload_transfer_info(),
                JsonView::Obj(seq![(key_port(), JsonView::UInt(port as u64))]),
            ),
        ),
        None => with_size,
    }
}

/// The serialized line of a packet: its JSON object followed by `0x0A`.
pub open spec fn spec_serialize_packet(p: PacketView) -> Seq<u8> {
    ser(JsonView::Obj(packet_json(p))) + seq![0x0au8]
}

/// First value held under `key`, if any.
pub open spec fn obj_get(fields: Seq<(Seq<u8>, JsonView)>, key: Seq<u8>) -> Option<JsonView>
    decreases fields.len(),
{
    if fields.len() == 0 {
        None
    } else if fields[0].0 == key {
        Some(fields[0].1)
    } else {
        obj_get(fields.drop_first(), key)
    }
}

/// How a received JSON value is read back as a packet; `None` when a
/// required member is missing or of the wrong shape, or a port does not fit.
pub open spec fn spec_json_to_packet(j: JsonView) -> Option<PacketView> {
    match j {
        JsonView::Obj(fs) => {
            match (obj_get(fs, key_type()), obj_get(fs, key_body()), obj_get(fs, key_id())) {
                (Some(JsonView::Str(t)), Some(body), Some(JsonView::UInt(id))) => {
                    let sz = match obj_get(fs, key_payload_size()) {
                        Some(JsonView::UInt(s)) => Some(Some(s)),
                        Some(_) => None,
                        None => Some(None),
                    };
                    let port = match obj_get(fs, key_payload_transfer_info()) {
                        Some(JsonView::Obj(pf)) => match obj_get(pf, key_port()) {
                            Some(JsonView::UInt(p)) => if p <= 0xffff {
                                Some(Some(p as u16))
                            } else {
                                None
                            },
                            _ => None,
                        },
                        Some(_) => None,
                        None => Some(None),
                    };
                    match (sz, port) {
                        (Some(sz), Some(port)) => Some(
                            PacketView { typ: t, body: body, id: id, payload_size: sz, port: port },
                        ),
                        _ => None,
                    }
                },
                _ => None,
            }
        },
        _ => None,
    }
}

/// How one received line is read: bytes up to the first `0x0A` (or all of
/// them), decoded as JSON, then read as a packet.
pub open spec fn spec_parse_packet(line: Seq<u8>) -> Option<PacketView> {
    let content = line_content(line);
    match spec_parse_all(content) {
        Some(j) => spec_json_to_packet(j),
        None => None,
    }
}

/// The bytes of a line before its first `0x0A`.
pub open spec fn line_content(line: Seq<u8>) -> Seq<u8>
    decreases line.len(),
{
    if line.len() == 0 {
        line
    } else if line[0] == 0x0a {
        Seq::empty()
    } else {
        seq![line[0]] + line_content(line.drop_first())
    }
}

/// "type" as bytes.
fn key_type_bytes() -> (r: Vec<u8>)
    ensures
        r@ == key_type(),
{
    let mut r: Vec<u8> = Vec::new();
    r.push(0x74);
    r.push(0x79);
    r.push(0x70);
    r.push(0x65);
    assert(r@ =~= key_type());
    r
}

/// "body" as bytes.
fn key_body_bytes() -> (r: Vec<u8>)
    ensures
        r@ == key_body(),
{
    let mut r: Vec<u8> = Vec::new();
    r.push(0x62);
    r.push(0x6f);
    r.push(0x64);
    r.push(0x79);
    assert(r@ =~= key_body());
    r
}

/// "id" as bytes.
fn key_id_bytes() -> (r: Vec<u8>)
    ensures
        r@ == key_id(),
{
    let mut r: Vec<u8> = Vec::new();
    r.push(0x69);
    r.push(0x64);
    assert(r@ =~= key_id());
    r
}

/// "payloadSize" as bytes.
fn key_payload_size_bytes() -> (r: Vec<u8>)
    ensures
        r@ == key_payload_size(),
{
    let mut r: Vec<u8> = Vec::new();
    r.push(0x70);
    r.push(0x61);
    r.push(0x79);
    r.push(0x6c);
    r.push(0x6f);
    r.push(0x61);
    r.push(0x64);
    r.push(0x53);
    r.push(0x69);
    r.push(0x7a);
    r.push(0x65);
    assert(r@ =~= key_payload_size());
    r
}

/// "payloadTransferInfo" as bytes.
fn key_payload_transfer_info_bytes() -> (r: Vec<u8>)
    ensures
        r@ == key_payload_transfer_info(),
{
    let mut r: Vec<u8> = Vec::new();
    r.push(0x70);
    r.push(0x61);
    r.push(0x79);
    r.push(0x6c);
    r.push(0x6f);
    r.push(0x61);
    r.push(0x64);
    r.push(0x54);
    r.push(0x72);
    r.push(0x61);
    r.push(0x6e);
    r.push(0x73);
    r.push(0x66);
    r.push(0x65);
    r.push(0x72);
    r.push(0x49);
    r.push(0x6e);
    r.push(0x66);
    r.push(0x6f);
    assert(r@ =~= key_payload_transfer_info());
    r
}

/// "port" as bytes.
fn key_port_bytes() -> (r: Vec<u8>)
    ensures
        r@ == key_port(),
{
    let mut r: Vec<u8> = Vec::new();
    r.push(0x70);
    r.push(0x6f);
    r.push(0x72);
    r.push(0x74);
    assert(r@ =~= key_port());
    r
}

/// A deep copy of a JSON value.
pub fn clone_json(v: &Json) -> (r: Json)
    ensures
        r@ == v@,
    decreases crate::json::weight(v@),
{
    match v {
        Json::Null => Json::Null,
        Json::Bool(b) => Json::Bool(*b),
        Json::UInt(n) => Json::UInt(*n),
        Json::NegInt(m) => Json::NegInt(*m),
        Json::Str(s) => Json::Str(clone_bytes(s.as_slice())),
        Json::Arr(items) => {
            let ghost vs = crate::json::views_of(items@);
            proof {
                crate::json::lemma_views_of(items@);
            }
            let n: usize = items.len();
            let mut out: Vec<Json> = Vec::new();
            let mut i: usize = 0;
            while i < n
                invariant
                    n == items@.len(),
                    0 <= i <= n,
                    vs == crate::json::views_of(items@),
                    v@ == JsonView::Arr(vs),
                    vs.len() == n,
                    forall|k: int| 0 <= k < n ==> vs[k] == items@[k]@,
                    out@.len() == i,
                    forall|k: int| 0 <= k < i ==> out@[k]@ == vs[k],
                decreases n - i,
            {
                proof {
                    crate::json::lemma_weight_item_le(vs, i as int);
                }
                let c = clone_json(&items[i]);
                out.push(c);
                i = i + 1;
            }
            proof {
                crate::json::lemma_views_of(out@);
                assert(crate::json::views_of(out@) =~= vs);
            }
            Json::Arr(out)
        },
        Json::Obj(fields) => {
            let ghost fs = crate::json::views_of_fields(fields@);
            proof {
                crate::json::lemma_views_of_fields(fields@);
            }
            let n: usize = fields.len();
            let mut out: Vec<(Vec<u8>, Json)> = Vec::new();
            let mut i: usize = 0;
            while i < n
                invariant
                    n == fields@.len(),
                    0 <= i <= n,
                    fs == crate::json::views_of_fields(fields@),
                    v@ == JsonView::Obj(fs),
                    fs.len() == n,
                    forall|k: int| 0 <= k < n ==> fs[k] == (fields@[k].0@, fields@[k].1@),
                    out@.len() == i,
                    forall|k: int| 0 <= k < i ==> (out@[k].0@, out@[k].1@) == fs[k],
                decreases n - i,
            {
                proof {
                    crate::json::lemma_weight_field_le(fs, i as int);
                }
                let ck = clone_bytes(fields[i].0.as_slice());
                let cv = clone_json(&fields[i].1);
                out.push((ck, cv));
                i = i + 1;
            }
            proof {
                crate::json::lemma_views_of_fields(out@);
                assert(crate::json::views_of_fields(out@) =~= fs);
            }
            Json::Obj(out)
        },
    }
}

impl NetworkPacket {
    /// A packet of the given type and body, stamped with the given
    /// millisecond timestamp and carrying no payload.
    pub fn new(typ: Vec<u8>, body: Json, now_ms: u64) -> (r: Self)
        ensures
            r@ == (PacketView {
                typ: typ@,
                body: body@,
                id: now_ms,
                payload_size: None,
                port: None,
            }),
    {
        NetworkPacket { typ, body, id: now_ms, payload_size: None, payload_transfer_info: None }
    }

    /// A pair packet `{"pair": b}`, as the connection loop answers pairing
    /// requests with.
    pub fn new_pair(pair: bool, now_ms: u64) -> (r: Self)
        ensures
            r@.typ == pair_type(),
            r@.body == JsonView::Obj(
                seq![(seq![0x70u8, 0x61u8, 0x69u8, 0x72u8], JsonView::Bool(pair))],
            ),
            r@.id == now_ms,
            r@.payload_size is None,
            r@.port is None,
    {
        let mut key: Vec<u8> = Vec::new();
        key.push(0x70);
        key.push(0x61);
        key.push(0x69);
        key.push(0x72);
        assert(key@ =~= seq![0x70u8, 0x61u8, 0x69u8, 0x72u8]);
        let mut fields: Vec<(Vec<u8>, Json)> = Vec::new();
        fields.push((key, Json::Bool(pair)));
        proof {
            crate::json::lemma_views_of_fields(fields@);
            assert(crate::json::views_of_fields(fields@)
                =~= seq![(seq![0x70u8, 0x61u8, 0x69u8, 0x72u8], JsonView::Bool(pair))]);
        }
        NetworkPacket {
            typ: packet_type_pair(),
            body: Json::Obj(fields),
            id: now_ms,
            payload_size: None,
            payload_transfer_info: None,
        }
    }

    /// Stamp a fresh timestamp.
    pub fn reset_ts(&mut self, now_ms: u64)
        ensures
            final(self)@ == (PacketView { id: now_ms, ..old(self)@ }),
    {
        self.id = now_ms;
    }

    /// Stamp the payload metadata: its size and the port of the ephemeral
    /// server that will serve it.
    pub fn set_payload(&mut self, size: u64, port: u16)
        ensures
            final(self)@ == (PacketView {
                payload_size: Some(size),
                port: Some(port),
                ..old(self)@
            }),
    {
        self.payload_size = Some(size);
        self.payload_transfer_info = Some(PayloadTransferInfo { port });
    }

    /// Whether this packet's type is the identity type.
    pub fn is_identity(&self) -> (r: bool)
        ensures
            r == (self@.typ == identity_type()),
    {
        let t = packet_type_identity();
        crate::bytes::bytes_eq(self.typ.as_slice(), t.as_slice())
    }

    /// Whether this packet's type is the pair type.
    pub fn is_pair(&self) -> (r: bool)
        ensures
            r == (self@.typ == pair_type()),
    {
        let t = packet_type_pair();
        crate::bytes::bytes_eq(self.typ.as_slice(), t.as_slice())
    }

    /// This packet's JSON object alone, without the line delimiter.
    pub fn to_vec(&self) -> (r: Vec<u8>)
        ensures
            r@ == ser(JsonView::Obj(packet_json(self@))),
    {
        let mut line = self.serialize();
        let ghost full = line@;
        line.pop();
        proof {
            assert(line@ =~= full.drop_last());
            assert(full.drop_last() =~= ser(JsonView::Obj(packet_json(self@))));
        }
        line
    }

    /// The serialized line of this packet: its JSON object and the
    /// terminating `0x0A`.
    pub fn serialize(&self) -> (r: Vec<u8>)
        ensures
            r@ == spec_serialize_packet(self@),
    {
        let mut fields: Vec<(Vec<u8>, Json)> = Vec::new();
        fields.push((key_type_bytes(), Json::Str(clone_bytes(self.typ.as_slice()))));
        fields.push((key_body_bytes(), clone_json(&self.body)));
        fields.push((key_id_bytes(), Json::UInt(self.id)));
        match self.payload_size {
            Some(sz) => {
                fields.push((key_payload_size_bytes(), Json::UInt(sz)));
            },
            None => {
            },
        }
        match &self.payload_transfer_info {
            Some(info) => {
                let mut port_fields: Vec<(Vec<u8>, Json)> = Vec::new();
                port_fields.push((key_port_bytes(), Json::UInt(info.port as u64)));
                proof {
                    crate::json::lemma_views_of_fields(port_fields@);
                    assert(crate::json::views_of_fields(port_fields@)
                        =~= seq![(key_port(), JsonView::UInt(self@.port->0 as u64))]);
                }
                fields.push((key_payload_transfer_info_bytes(), Json::Obj(port_fields)));
            },
            None => {
            },
        }
        let obj = Json::Obj(fields);
        proof {
            crate::json::lemma_views_of_fields(fields@);
            assert(crate::json::views_of_fields(fields@) =~= packet_json(self@));
            assert(obj@ == JsonView::Obj(packet_json(self@)));
        }
        let mut out = to_json_bytes(&obj);
        out.push(0x0a);
        assert(out@ =~= spec_serialize_packet(self@));
        out
    }
}

/// First field index holding `key`, if any; agrees with `obj_get`.
pub fn find_field(fields: &Vec<(Vec<u8>, Json)>, key: &[u8]) -> (r: Option<usize>)
    ensures
        ({
            let fs = crate::json::views_of_fields(fields@);
            match r {
                Some(i) => 0 <= i < fs.len() && fs[i as int].0 == key@
                    && obj_get(fs, key@) == Some(fs[i as int].1),
                None => obj_get(fs, key@) is None,
            }
        }),
{
    let ghost fs = crate::json::views_of_fields(fields@);
    proof {
        crate::json::lemma_views_of_fields(fields@);
    }
    let n: usize = fields.len();
    let mut i: usize = 0;
    while i < n
        invariant
            n == fields@.len(),
            0 <= i <= n,
            fs == crate::json::views_of_fields(fields@),
            fs.len() == n,
            forall|k: int| 0 <= k < n ==> fs[k] == (fields@[k].0@, fields@[k].1@),
            forall|k: int| 0 <= k < i ==> fs[k].0 != key@,
        decreases n - i,
    {
        if crate::bytes::bytes_eq(fields[i].0.as_slice(), key) {
            proof {
                lemma_obj_get_at(fs, key@, i as int);
            }
            return Some(i);
        }
        i = i + 1;
    }
    proof {
        lemma_obj_get_none(fs, key@);
    }
    None
}

/// `obj_get` finds the first index holding the key.
proof fn lemma_obj_get_at(fs: Seq<(Seq<u8>, JsonView)>, key: Seq<u8>, i: int)
    requires
        0 <= i < fs.len(),
        fs[i].0 == key,
        forall|k: int| 0 <= k < i ==> fs[k].0 != key,
    ensures
        obj_get(fs, key) == Some(fs[i].1),
    decreases i,
{
    if i > 0 {
        lemma_obj_get_at(fs.drop_first(), key, i - 1);
    }
}

/// `obj_get` misses when no field holds the key.
proof fn lemma_obj_get_none(fs: Seq<(Seq<u8>, JsonView)>, key: Seq<u8>)
    requires
        forall|k: int| 0 <= k < fs.len() ==> fs[k].0 != key,
    ensures
        obj_get(fs, key) is None,
    decreases fs.len(),
{
    if fs.len() > 0 {
        lemma_obj_get_none(fs.drop_first(), key);
    }
}

/// Read a parsed JSON value back as a packet.
pub fn json_to_packet(j: Json) -> (r: Result<NetworkPacket, ()>)
    ensures
        match r {
            Ok(p) => spec_json_to_packet(j@) == Some(p@),
            Err(e) => spec_json_to_packet(j@) is None,
        },
{
    match j {
        Json::Obj(fields) => {
            let ghost fs = crate::json::views_of_fields(fields@);
            proof {
                crate::json::lemma_views_of_fields(fields@);
                assert(j@ == JsonView::Obj(fs));
            }
            let kt = key_type_bytes();
            let typ: Vec<u8> = match find_field(&fields, kt.as_slice()) {
                Some(i) => match &fields[i].1 {
                    Json::Str(t) => clone_bytes(t.as_slice()),
                    _ => {
                        return Err(());
                    },
                },
                None => {
                    return Err(());
                },
            };
            let kb = key_body_bytes();
            let body: Json = match find_field(&fields, kb.as_slice()) {
                Some(i) => clone_json(&fields[i].1),
                None => {
                    return Err(());
                },
            };
            let ki = key_id_bytes();
            let id: u64 = match find_field(&fields, ki.as_slice()) {
                Some(i) => match &fields[i].1 {
                    Json::UInt(n) => *n,
                    _ => {
                        return Err(());
                    },
                },
                None => {
                    return Err(());
                },
            };
            let ks = key_payload_size_bytes();
            let payload_size: Option<u64> = match find_field(&fields, ks.as_slice()) {
                Some(i) => match &fields[i].1 {
                    Json::UInt(n) => Some(*n),
                    _ => {
                        return Err(());
                    },
                },
                None => None,
            };
            let kp = key_payload_transfer_info_bytes();
            let payload_transfer_info: Option<PayloadTransferInfo> = match find_field(
                &fields,
                kp.as_slice(),
            ) {
                Some(i) => match &fields[i].1 {
                    Json::Obj(pf) => {
                        let ghost pfs = crate::json::views_of_fields(pf@);
                        proof {
                            crate::json::lemma_views_of_fields(pf@);
                        }
                        let kq = key_port_bytes();
                        match find_field(pf, kq.as_slice()) {
                            Some(q) => match &pf[q].1 {
                                Json::UInt(n) => if *n <= 0xffff {
                                    Some(PayloadTransferInfo { port: *n as u16 })
                                } else {
                                    return Err(());
                                },
                                _ => {
                                    return Err(());
                                },
                            },
                            None => {
                                return Err(());
                            },
                        }
                    },
                    _ => {
                        return Err(());
                    },
                },
                None => None,
            };
            Ok(NetworkPacket { typ, body, id, payload_size, payload_transfer_info })
        },
        _ => Err(()),
    }
}

/// The line content up to the first `0x0A` is the prefix before it.
proof fn lemma_line_content_at(line: Seq<u8>, j: int)
    requires
        0 <= j <= line.len(),
        forall|k: int| 0 <= k < j ==> line[k] != 0x0a,
        j == line.len() || line[j] == 0x0a,
    ensures
        line_content(line) == line.take(j),
    decreases j,
{
    if line.len() == 0 {
        assert(line.take(0) =~= line);
    } else if j == 0 {
        if line[0] == 0x0a {
            assert(line.take(0) =~= Seq::<u8>::empty());
        } else {
            assert(false);
        }
    } else {
        lemma_line_content_at(line.drop_first(), j - 1);
        assert(seq![line[0]] + line.drop_first().take(j - 1) =~= line.take(j));
    }
}

/// Read one received line as a packet: bytes before the first `0x0A`,
/// decoded as JSON, read as a packet.
pub fn parse_packet(line: &Vec<u8>) -> (r: Result<NetworkPacket, ()>)
    requires
        line@.len() < usize::MAX,
    ensures
        match r {
            Ok(p) => spec_parse_packet(line@) == Some(p@),
            Err(e) => spec_parse_packet(line@) is None,
        },
{
    let n: usize = line.len();
    let mut j: usize = 0;
    let mut content: Vec<u8> = Vec::new();
    while j < n && line[j] != 0x0a
        invariant
            0 <= j <= n,
            n == line@.len(),
            content@ =~= line@.subrange(0, j as int),
            forall|k: int| 0 <= k < j ==> line@[k] != 0x0a,
        decreases n - j,
    {
        content.push(line[j]);
        j = j + 1;
    }
    proof {
        lemma_line_content_at(line@, j as int);
        assert(line@.take(j as int) =~= line@.subrange(0, j as int));
        assert(line_content(line@) == content@);
    }
    match parse_json(&content) {
        Ok(v) => json_to_packet(v),
        Err(()) => Err(()),
    }
}

/// A serialized value holds no `0x0A` byte: strings are escaped before
/// they reach the wire.
proof fn lemma_ser_no_newline(v: JsonView)
    ensures
        forall|i: int| 0 <= i < ser(v).len() ==> #[trigger] ser(v)[i] != 0x0a,
    decreases v,
{
    match v {
        JsonView::Null => {
        },
        JsonView::Bool(_) => {
        },
        JsonView::UInt(n) => {
            crate::json::lemma_dec_digits_props(n);
            assert forall|i: int| 0 <= i < ser(v).len() implies #[trigger] ser(v)[i] != 0x0a by {
                assert(is_digit(ser(v)[i]));
            }
        },
        JsonView::NegInt(m) => {
            crate::json::lemma_dec_digits_props(m);
            assert forall|i: int| 0 <= i < ser(v).len() implies #[trigger] ser(v)[i] != 0x0a by {
                if i == 0 {
                    assert(ser(v)[i] == 0x2d);
                } else {
                    assert(ser(v)[i] == crate::json::dec_digits(m)[i - 1]);
                    assert(is_digit(ser(v)[i]));
                }
            }
        },
        JsonView::Str(s) => {
            lemma_escape_no_newline(s);
            let es = escape_str(s);
            assert forall|i: int| 0 <= i < ser(v).len() implies #[trigger] ser(v)[i] != 0x0a by {
                if i == 0 {
                    assert(ser(v)[i] == 0x22);
                } else if i < 1 + es.len() {
                    assert(ser(v)[i] == es[i - 1]);
                } else {
                    assert(ser(v)[i] == 0x22);
                }
            }
        },
        JsonView::Arr(items) => {
            lemma_ser_items_no_newline(items);
        },
        JsonView::Obj(fields) => {
            lemma_ser_fields_no_newline(fields);
        },
    }
}

proof fn lemma_ser_items_no_newline(items: Seq<JsonView>)
    ensures
        forall|i: int|
            0 <= i < crate::json::ser_items(items).len()
                ==> #[trigger] crate::json::ser_items(items)[i] != 0x0a,
        forall|i: int|
            0 <= i < ser(JsonView::Arr(items)).len()
                ==> #[trigger] ser(JsonView::Arr(items))[i] != 0x0a,
    decreases items,
{
    let si = crate::json::ser_items(items);
    if items.len() == 0 {
        assert(si =~= Seq::<u8>::empty());
    } else if items.len() == 1 {
        lemma_ser_no_newline(items[0]);
        assert forall|i: int| 0 <= i < si.len() implies #[trigger] si[i] != 0x0a by {
            assert(si[i] == ser(items[0])[i]);
        }
    } else {
        lemma_ser_no_newline(items[0]);
        lemma_ser_items_no_newline(items.drop_first());
        let h = ser(items[0]);
        let t = crate::json::ser_items(items.drop_first());
        assert(si == h + seq![0x2cu8] + t);
        assert forall|i: int| 0 <= i < si.len() implies #[trigger] si[i] != 0x0a by {
            if i < h.len() {
                assert(si[i] == h[i]);
            } else if i == h.len() {
                assert(si[i] == 0x2c);
            } else {
                assert(si[i] == t[i - h.len() - 1]);
            }
        }
    }
    let sa = ser(JsonView::Arr(items));
    assert(sa == seq![0x5bu8] + si + seq![0x5du8]);
    assert forall|i: int| 0 <= i < sa.len() implies #[trigger] sa[i] != 0x0a by {
        if i == 0 {
            assert(sa[i] == 0x5b);
        } else if i < 1 + si.len() {
            assert(sa[i] == si[i - 1]);
        } else {
            assert(sa[i] == 0x5d);
        }
    }
}

proof fn lemma_ser_fields_no_newline(fields: Seq<(Seq<u8>, JsonView)>)
    ensures
        forall|i: int|
            0 <= i < crate::json::ser_fields(fields).len()
                ==> #[trigger] crate::json::ser_fields(fields)[i] != 0x0a,
        forall|i: int|
            0 <= i < ser(JsonView::Obj(fields)).len()
                ==> #[trigger] ser(JsonView::Obj(fields))[i] != 0x0a,
    decreases fields,
{
    let sf = crate::json::ser_fields(fields);
    if fields.len() == 0 {
        assert(sf =~= Seq::<u8>::empty());
    } else {
        lemma_ser_no_newline(fields[0].1);
        let ek = escape_str(fields[0].0);
        lemma_escape_no_newline(fields[0].0);
        let head = seq![0x22u8] + ek + seq![0x22u8, 0x3au8] + ser(fields[0].1);
        assert forall|i: int| 0 <= i < head.len() implies #[trigger] head[i] != 0x0a by {
            if i == 0 {
                assert(head[i] == 0x22);
            } else if i < 1 + ek.len() {
                assert(head[i] == ek[i - 1]);
            } else if i == 1 + ek.len() {
                assert(head[i] == 0x22);
            } else if i == 2 + ek.len() {
                assert(head[i] == 0x3a);
            } else {
                assert(head[i] == ser(fields[0].1)[i - ek.len() - 3]);
            }
        }
        if fields.len() == 1 {
            assert(sf == head);
        } else {
            lemma_ser_fields_no_newline(fields.drop_first());
            let t = crate::json::ser_fields(fields.drop_first());
            assert(sf == head + seq![0x2cu8] + t);
            assert forall|i: int| 0 <= i < sf.len() implies #[trigger] sf[i] != 0x0a by {
                if i < head.len() {
                    assert(sf[i] == head[i]);
                } else if i == head.len() {
                    assert(sf[i] == 0x2c);
                } else {
                    assert(sf[i] == t[i - head.len() - 1]);
                }
            }
        }
    }
    let so = ser(JsonView::Obj(fields));
    assert(so == seq![0x7bu8] + sf + seq![0x7du8]);
    assert forall|i: int| 0 <= i < so.len() implies #[trigger] so[i] != 0x0a by {
        if i == 0 {
            assert(so[i] == 0x7b);
        } else if i < 1 + sf.len() {
            assert(so[i] == sf[i - 1]);
        } else {
            assert(so[i] == 0x7d);
        }
    }
}

/// `obj_get` after appending a field: an existing binding wins; otherwise
/// the appended field answers for its own key.
proof fn lemma_obj_get_push(fs: Seq<(Seq<u8>, JsonView)>, k: Seq<u8>, v: JsonView, key: Seq<u8>)
    ensures
        obj_get(fs.push((k, v)), key) == (if obj_get(fs, key) is Some {
            obj_get(fs, key)
        } else if k == key {
            Some(v)
        } else {
            None::<JsonView>
        }),
    decreases fs.len(),
{
    let fsx = fs.push((k, v));
    if fs.len() == 0 {
        assert(fsx[0] == (k, v));
        assert(fsx.drop_first() =~= fs);
    } else {
        assert(fsx[0] == fs[0]);
        assert(fsx.drop_first() =~= fs.drop_first().push((k, v)));
        lemma_obj_get_push(fs.drop_first(), k, v, key);
    }
}

/// The five top-level member keys are pairwise distinct and clean.
proof fn lemma_packet_keys()
    ensures
        key_type() != key_body(),
        key_type() != key_id(),
        key_type() != key_payload_size(),
        key_type() != key_payload_transfer_info(),
        key_body() != key_id(),
        key_body() != key_payload_size(),
        key_body() != key_payload_transfer_info(),
        key_id() != key_payload_size(),
        key_id() != key_payload_transfer_info(),
        key_payload_size() != key_payload_transfer_info(),
{
    assert(key_type()[0] != key_body()[0]);
    assert(key_type().len() != key_id().len());
    assert(key_type()[0] != key_payload_size()[0]);
    assert(key_type()[0] != key_payload_transfer_info()[0]);
    assert(key_body().len() != key_id().len());
    assert(key_body()[0] != key_payload_size()[0]);
    assert(key_body()[0] != key_payload_transfer_info()[0]);
    assert(key_id()[0] != key_payload_size()[0]);
    assert(key_id()[0] != key_payload_transfer_info()[0]);
    assert(key_payload_size().len() != key_payload_transfer_info().len());
}

/// What `obj_get` reads off a packet's member list: exactly the packet's
/// components.
proof fn lemma_packet_json_gets(p: PacketView)
    ensures
        obj_get(packet_json(p), key_type()) == Some(JsonView::Str(p.typ)),
        obj_get(packet_json(p), key_body()) == Some(p.body),
        obj_get(packet_json(p), key_id()) == Some(JsonView::UInt(p.id)),
        obj_get(packet_json(p), key_payload_size()) == match p.payload_size {
            Some(sz) => Some(JsonView::UInt(sz)),
            None => None::<JsonView>,
        },
        obj_get(packet_json(p), key_payload_transfer_info()) == match p.port {
            Some(port) => Some(
                JsonView::Obj(seq![(key_port(), JsonView::UInt(port as u64))]),
            ),
            None => None::<JsonView>,
        },
{
    reveal_with_fuel(obj_get, 5);
    lemma_packet_keys();
    let base = seq![
        (key_type(), JsonView::Str(p.typ)),
        (key_body(), p.body),
        (key_id(), JsonView::UInt(p.id)),
    ];
    let b1 = base.drop_first();
    let b2 = b1.drop_first();
    let b3 = b2.drop_first();
    assert(b1 =~= seq![(key_body(), p.body), (key_id(), JsonView::UInt(p.id))]);
    assert(b2 =~= seq![(key_id(), JsonView::UInt(p.id))]);
    assert(b3 =~= Seq::<(Seq<u8>, JsonView)>::empty());
    assert(obj_get(base, key_type()) == Some(JsonView::Str(p.typ)));
    assert(obj_get(base, key_body()) == Some(p.body));
    assert(obj_get(base, key_id()) == Some(JsonView::UInt(p.id)));
    assert(obj_get(base, key_payload_size()) is None);
    assert(obj_get(base, key_payload_transfer_info()) is None);
    let with_size = match p.payload_size {
        Some(sz) => base.push((key_payload_size(), JsonView::UInt(sz))),
        None => base,
    };
    match p.payload_size {
        Some(sz) => {
            lemma_obj_get_push(base, key_payload_size(), JsonView::UInt(sz), key_type());
            lemma_obj_get_push(base, key_payload_size(), JsonView::UInt(sz), key_body());
            lemma_obj_get_push(base, key_payload_size(), JsonView::UInt(sz), key_id());
            lemma_obj_get_push(base, key_payload_size(), JsonView::UInt(sz), key_payload_size());
            lemma_obj_get_push(
                base, key_payload_size(), JsonView::UInt(sz), key_payload_transfer_info(),
            );
        },
        None => {
        },
    }
    match p.port {
        Some(port) => {
            let pti = JsonView::Obj(seq![(key_port(), JsonView::UInt(port as u64))]);
            lemma_obj_get_push(with_size, key_payload_transfer_info(), pti, key_type());
            lemma_obj_get_push(with_size, key_payload_transfer_info(), pti, key_body());
            lemma_obj_get_push(with_size, key_payload_transfer_info(), pti, key_id());
            lemma_obj_get_push(with_size, key_payload_transfer_info(), pti, key_payload_size());
            lemma_obj_get_push(
                with_size, key_payload_transfer_info(), pti, key_payload_transfer_info(),
            );
        },
        None => {
        },
    }
}

/// Round trip: a serialized well-formed packet parses back to itself,
/// including its payload metadata exactly as stamped.
pub proof fn lemma_packet_round_trip(p: PacketView)
    ensures
        spec_parse_packet(spec_serialize_packet(p)) == Some(p),
{
    reveal_with_fuel(obj_get, 3);
    lemma_packet_keys();
    let fs = packet_json(p);
    let j = JsonView::Obj(fs);
    lemma_parse_all_ser(j);
    lemma_ser_no_newline(j);
    let line = spec_serialize_packet(p);
    assert(line =~= ser(j) + seq![0x0au8]);
    assert forall|k: int| 0 <= k < ser(j).len() implies line[k] != 0x0a by {
        assert(line[k] == ser(j)[k]);
    }
    assert(line[ser(j).len() as int] == 0x0a);
    lemma_line_content_at(line, ser(j).len() as int);
    assert(line.take(ser(j).len() as int) =~= ser(j));
    assert(spec_parse_all(line_content(line)) == Some(j));
    lemma_packet_json_gets(p);
    match p.port {
        Some(port) => {
            let pf = seq![(key_port(), JsonView::UInt(port as u64))];
            assert(pf.drop_first() =~= Seq::<(Seq<u8>, JsonView)>::empty());
            assert(obj_get(pf, key_port()) == Some(JsonView::UInt(port as u64)));
            assert(port as u64 <= 0xffff);
            assert((port as u64) as u16 == port);
        },
        None => {
        },
    }
    assert(spec_json_to_packet(j) == Some(
        PacketView {
            typ: p.typ,
            body: p.body,
            id: p.id,
            payload_size: p.payload_size,
            port: p.port,
        },
    ));
    assert(PacketView {
        typ: p.typ,
        body: p.body,
        id: p.id,
        payload_size: p.payload_size,
        port: p.port,
    } =~= p);
}


/// "kdeconnect.battery.request"
pub open spec fn battery_request_type() -> Seq<u8> {
    seq![0x6bu8, 0x64u8, 0x65u8, 0x63u8, 0x6fu8, 0x6eu8, 0x6eu8, 0x65u8, 0x63u8, 0x74u8, 0x2eu8, 0x62u8, 0x61u8, 0x74u8, 0x74u8, 0x65u8, 0x72u8, 0x79u8, 0x2eu8, 0x72u8, 0x65u8, 0x71u8, 0x75u8, 0x65u8, 0x73u8, 0x74u8]
}

/// "kdeconnect.battery.request" as bytes.
fn battery_request_type_bytes() -> (r: Vec<u8>)
    ensures
        r@ == battery_request_type(),
{
    let mut r: Vec<u8> = Vec::new();
    r.push(0x6b);
    r.push(0x64);
    r.push(0x65);
    r.push(0x63);
    r.push(0x6f);
    r.push(0x6e);
    r.push(0x6e);
    r.push(0x65);
    r.push(0x63);
    r.push(0x74);
    r.push(0x2e);
    r.push(0x62);
    r.push(0x61);
    r.push(0x74);
    r.push(0x74);
    r.push(0x65);
    r.push(0x72);
    r.push(0x79);
    r.push(0x2e);
    r.push(0x72);
    r.push(0x65);
    r.push(0x71);
    r.push(0x75);
    r.push(0x65);
    r.push(0x73);
    r.push(0x74);
    assert(r@ =~= battery_request_type());
    r
}

/// "kdeconnect.clipboard"
pub open spec fn clipboard_type() -> Seq<u8> {
    seq![0x6bu8, 0x64u8, 0x65u8, 0x63u8, 0x6fu8, 0x6eu8, 0x6eu8, 0x65u8, 0x63u8, 0x74u8, 0x2eu8, 0x63u8, 0x6cu8, 0x69u8, 0x70u8, 0x62u8, 0x6fu8, 0x61u8, 0x72u8, 0x64u8]
}

/// "kdeconnect.clipboard" as bytes.
fn clipboard_type_bytes() -> (r: Vec<u8>)
    ensures
        r@ == clipboard_type(),
{
    let mut r: Vec<u8> = Vec::new();
    r.push(0x6b);
    r.push(0x64);
    r.push(0x65);
    r.push(0x63);
    r.push(0x6f);
    r.push(0x6e);
    r.push(0x6e);
    r.push(0x65);
    r.push(0x63);
    r.push(0x74);
    r.push(0x2e);
    r.push(0x63);
    r.push(0x6c);
    r.push(0x69);
    r.push(0x70);
    r.push(0x62);
    r.push(0x6f);
    r.push(0x61);
    r.push(0x72);
    r.push(0x64);
    assert(r@ =~= clipboard_type());
    r
}

/// "kdeconnect.clipboard.connect"
pub open spec fn clipboard_connect_type() -> Seq<u8> {
    seq![0x6bu8, 0x64u8, 0x65u8, 0x63u8, 0x6fu8, 0x6eu8, 0x6eu8, 0x65u8, 0x63u8, 0x74u8, 0x2eu8, 0x63u8, 0x6cu8, 0x69u8, 0x70u8, 0x62u8, 0x6fu8, 0x61u8, 0x72u8, 0x64u8, 0x2eu8, 0x63u8, 0x6fu8, 0x6eu8, 0x6eu8, 0x65u8, 0x63u8, 0x74u8]
}

/// "kdeconnect.clipboard.connect" as bytes.
fn clipboard_connect_type_bytes() -> (r: Vec<u8>)
    ensures
        r@ == clipboard_connect_type(),
{
    let mut r: Vec<u8> = Vec::new();
    r.push(0x6b);
    r.push(0x64);
    r.push(0x65);
    r.push(0x63);
    r.push(0x6f);
    r.push(0x6e);
    r.push(0x6e);
    r.push(0x65);
    r.push(0x63);
    r.push(0x74);
    r.push(0x2e);
    r.push(0x63);
    r.push(0x6c);
    r.push(0x69);
    r.push(0x70);
    r.push(0x62);
    r.push(0x6f);
    r.push(0x61);
    r.push(0x72);
    r.push(0x64);
    r.push(0x2e);
    r.push(0x63);
    r.push(0x6f);
    r.push(0x6e);
    r.push(0x6e);
    r.push(0x65);
    r.push(0x63);
    r.push(0x74);
    assert(r@ =~= clipboard_connect_type());
    r
}

/// "request"
pub open spec fn key_request() -> Seq<u8> {
    seq![0x72u8, 0x65u8, 0x71u8, 0x75u8, 0x65u8, 0x73u8, 0x74u8]
}

/// "request" as bytes.
fn key_request_bytes() -> (r: Vec<u8>)
    ensures
        r@ == key_request(),
{
    let mut r: Vec<u8> = Vec::new();
    r.push(0x72);
    r.push(0x65);
    r.push(0x71);
    r.push(0x75);
    r.push(0x65);
    r.push(0x73);
    r.push(0x74);
    assert(r@ =~= key_request());
    r
}

/// "content"
pub open spec fn key_content() -> Seq<u8> {
    seq![0x63u8, 0x6fu8, 0x6eu8, 0x74u8, 0x65u8, 0x6eu8, 0x74u8]
}

/// "content" as bytes.
fn key_content_bytes() -> (r: Vec<u8>)
    ensures
        r@ == key_content(),
{
    let mut r: Vec<u8> = Vec::new();
    r.push(0x63);
    r.push(0x6f);
    r.push(0x6e);
    r.push(0x74);
    r.push(0x65);
    r.push(0x6e);
    r.push(0x74);
    assert(r@ =~= key_content());
    r
}

/// "timestamp"
pub open spec fn key_timestamp() -> Seq<u8> {
    seq![0x74u8, 0x69u8, 0x6du8, 0x65u8, 0x73u8, 0x74u8, 0x61u8, 0x6du8, 0x70u8]
}

/// "timestamp" as bytes.
fn key_timestamp_bytes() -> (r: Vec<u8>)
    ensures
        r@ == key_timestamp(),
{
    let mut r: Vec<u8> = Vec::new();
    r.push(0x74);
    r.push(0x69);
    r.push(0x6d);
    r.push(0x65);
    r.push(0x73);
    r.push(0x74);
    r.push(0x61);
    r.push(0x6d);
    r.push(0x70);
    assert(r@ =~= key_timestamp());
    r
}

/// "pair"
pub open spec fn key_pair() -> Seq<u8> {
    seq![0x70u8, 0x61u8, 0x69u8, 0x72u8]
}

/// "pair" as bytes.
fn key_pair_bytes() -> (r: Vec<u8>)
    ensures
        r@ == key_pair(),
{
    let mut r: Vec<u8> = Vec::new();
    r.push(0x70);
    r.push(0x61);
    r.push(0x69);
    r.push(0x72);
    assert(r@ =~= key_pair());
    r
}

/// The typed packet bodies this peer itself composes, each knowing its
/// packet-type tag.
#[derive(Debug, PartialEq, Eq)]
pub enum PacketType {
    /// Ask the peer for a battery report.
    BatteryRequest { request: bool },
    /// Share the clipboard text; an empty clipboard sends no content.
    Clipboard { content: Option<Vec<u8>> },
    /// Announce the clipboard state on connect, stamped with when it was
    /// read.
    ClipboardConnect { timestamp: u64, content: Option<Vec<u8>> },
}

impl PacketType {
    /// The packet-type tag of this body.
    pub fn packet_type(&self) -> (r: Vec<u8>)
        ensures
            r@ == match self {
                PacketType::BatteryRequest { .. } => battery_request_type(),
                PacketType::Clipboard { .. } => clipboard_type(),
                PacketType::ClipboardConnect { .. } => clipboard_connect_type(),
            },
    {
        match self {
            PacketType::BatteryRequest { .. } => battery_request_type_bytes(),
            PacketType::Clipboard { .. } => clipboard_type_bytes(),
            PacketType::ClipboardConnect { .. } => clipboard_connect_type_bytes(),
        }
    }

    /// This body as JSON; an absent clipboard content is left out.
    pub fn body_json(&self) -> (r: Json)
        ensures
            r@ == match self {
                PacketType::BatteryRequest { request } => JsonView::Obj(
                    seq![(key_request(), JsonView::Bool(*request))],
                ),
                PacketType::Clipboard { content } => JsonView::Obj(
                    match content {
                        Some(c) => seq![(key_content(), JsonView::Str(c@))],
                        None => Seq::<(Seq<u8>, JsonView)>::empty(),
                    },
                ),
                PacketType::ClipboardConnect { timestamp, content } => JsonView::Obj(
                    seq![(key_timestamp(), JsonView::UInt(*timestamp))] + (match content {
                        Some(c) => seq![(key_content(), JsonView::Str(c@))],
                        None => Seq::<(Seq<u8>, JsonView)>::empty(),
                    }),
                ),
            },
    {
        match self {
            PacketType::BatteryRequest { request } => {
                let mut fields: Vec<(Vec<u8>, Json)> = Vec::new();
                fields.push((key_request_bytes(), Json::Bool(*request)));
                proof {
                    crate::json::lemma_views_of_fields(fields@);
                    assert(crate::json::views_of_fields(fields@)
                        =~= seq![(key_request(), JsonView::Bool(*request))]);
                }
                Json::Obj(fields)
            },
            PacketType::Clipboard { content } => {
                let mut fields: Vec<(Vec<u8>, Json)> = Vec::new();
                match content {
                    Some(c) => {
                        fields.push((key_content_bytes(), Json::Str(clone_bytes(c.as_slice()))));
                        proof {
                            crate::json::lemma_views_of_fields(fields@);
                            assert(crate::json::views_of_fields(fields@)
                                =~= seq![(key_content(), JsonView::Str(c@))]);
                        }
                    },
                    None => {
                        proof {
                            crate::json::lemma_views_of_fields(fields@);
                            assert(crate::json::views_of_fields(fields@)
                                =~= Seq::<(Seq<u8>, JsonView)>::empty());
                        }
                    },
                }
                Json::Obj(fields)
            },
            PacketType::ClipboardConnect { timestamp, content } => {
                let mut fields: Vec<(Vec<u8>, Json)> = Vec::new();
                fields.push((key_timestamp_bytes(), Json::UInt(*timestamp)));
                match content {
                    Some(c) => {
                        fields.push((key_content_bytes(), Json::Str(clone_bytes(c.as_slice()))));
                        proof {
                            crate::json::lemma_views_of_fields(fields@);
                            assert(crate::json::views_of_fields(fields@)
                                =~= seq![(key_timestamp(), JsonView::UInt(*timestamp))]
                                    + seq![(key_content(), JsonView::Str(c@))]);
                        }
                    },
                    None => {
                        proof {
                            crate::json::lemma_views_of_fields(fields@);
                            assert(crate::json::views_of_fields(fields@)
                                =~= seq![(key_timestamp(), JsonView::UInt(*timestamp))]
                                    + Seq::<(Seq<u8>, JsonView)>::empty());
                        }
                    },
                }
                Json::Obj(fields)
            },
        }
    }
}

/// The body of a pairing packet.
#[derive(Debug, Clone, Copy, PartialEq, Eq, Structural)]
pub struct PairPacket {
    pub pair: bool,
}

impl PairPacket {
    /// This body as JSON.
    pub fn body_json(&self) -> (r: Json)
        ensures
            r@ == JsonView::Obj(seq![(key_pair(), JsonView::Bool(self.pair))]),
    {
        let mut fields: Vec<(Vec<u8>, Json)> = Vec::new();
        fields.push((key_pair_bytes(), Json::Bool(self.pair)));
        proof {
            crate::json::lemma_views_of_fields(fields@);
            assert(crate::json::views_of_fields(fields@)
                =~= seq![(key_pair(), JsonView::Bool(self.pair))]);
        }
        Json::Obj(fields)
    }
}

} // verus!
