//! The persisted configuration: a stable UUID and the TLS credential.
//!
//! One JSON file holds the UUID this peer advertises as its device id and
//! the self-signed certificate and private key, both DER encoded and
//! stored as base64 text. Reading and writing the file is the caller's
//! side; the functions here turn the configuration into file bytes and
//! back, and the two directions invert each other field for field.

use vstd::prelude::*;

use crate::base64::{
    b64_decode, b64_encode, lemma_b64_round_trip, spec_b64_decode, spec_b64_encode,
};
use crate::bytes::clone_bytes;
use crate::json::{
    parse_json, ser, spec_parse_all, to_json_bytes, Json, JsonView, lemma_parse_all_ser,
};
use crate::packet::{find_field, obj_get};

verus! {

/// "uuid"
pub open spec fn key_uuid() -> Seq<u8> {
    seq![0x75u8, 0x75u8, 0x69u8, 0x64u8]
}

/// "tls_key"
pub open spec fn key_tls_key() -> Seq<u8> {
    seq![0x74u8, 0x6cu8, 0x73u8, 0x5fu8, 0x6bu8, 0x65u8, 0x79u8]
}

/// "tls_cert"
pub open spec fn key_tls_cert() -> Seq<u8> {
    seq![0x74u8, 0x6cu8, 0x73u8, 0x5fu8, 0x63u8, 0x65u8, 0x72u8, 0x74u8]
}

fn key_uuid_bytes() -> (r: Vec<u8>)
    ensures
        r@ == key_uuid(),
{
    let mut r: Vec<u8> = Vec::new();
    r.push(0x75);
    r.push(0x75);
    r.push(0x69);
    r.push(0x64);
    assert(r@ =~= key_uuid());
    r
}

fn key_tls_key_bytes() -> (r: Vec<u8>)
    ensures
        r@ == key_tls_key(),
{
    let mut r: Vec<u8> = Vec::new();
    r.push(0x74);
    r.push(0x6c);
    r.push(0x73);
    r.push(0x5f);
    r.push(0x6b);
    r.push(0x65);
    r.push(0x79);
    assert(r@ =~= key_tls_key());
    r
}

fn key_tls_cert_bytes() -> (r: Vec<u8>)
    ensures
        r@ == key_tls_cert(),
{
    let mut r: Vec<u8> = Vec::new();
    r.push(0x74);
    r.push(0x6c);
    r.push(0x73);
    r.push(0x5f);
    r.push(0x63);
    r.push(0x65);
    r.push(0x72);
    r.push(0x74);
    assert(r@ =~= key_tls_cert());
    r
}

/// The persisted identity of this peer.
#[derive(Debug, PartialEq, Eq)]
pub struct Config {
    /// Stable identifier; the certificate's Common Name and this peer's
    /// advertised device id.
    pub uuid: Vec<u8>,
    /// Private key, DER.
    pub tls_key: Vec<u8>,
    /// Self-signed certificate, DER.
    pub tls_cert: Vec<u8>,
}

/// Mathematical image of a configuration.
#[verifier::ext_equal]
pub struct ConfigView {
    pub uuid: Seq<u8>,
    pub tls_key: Seq<u8>,
    pub tls_cert: Seq<u8>,
}

impl Config {
    pub open spec fn view(&self) -> ConfigView {
        ConfigView { uuid: self.uuid@, tls_key: self.tls_key@, tls_cert: self.tls_cert@ }
    }
}

/// The members of the configuration file's JSON object.
pub open spec fn config_fields(v: ConfigView) -> Seq<(Seq<u8>, JsonView)> {
    seq![
        (key_uuid(), JsonView::Str(v.uuid)),
        (key_tls_key(), JsonView::Str(spec_b64_encode(v.tls_key))),
        (key_tls_cert(), JsonView::Str(spec_b64_encode(v.tls_cert))),
    ]
}

/// The bytes `save` writes.
pub open spec fn spec_encode_config(v: ConfigView) -> Seq<u8> {
    ser(JsonView::Obj(config_fields(v)))
}

/// What `load` reads back from file bytes: the JSON object's three
/// members, the key and certificate decoded from base64.
pub open spec fn spec_decode_config(s: Seq<u8>) -> Option<ConfigView> {
    match spec_parse_all(s) {
        Some(JsonView::Obj(fs)) => match (
            obj_get(fs, key_uuid()),
            obj_get(fs, key_tls_key()),
            obj_get(fs, key_tls_cert()),
        ) {
            (Some(JsonView::Str(uuid)), Some(JsonView::Str(keytext)), Some(
                JsonView::Str(certtext),
            )) => match (spec_b64_decode(keytext), spec_b64_decode(certtext)) {
                (Some(key), Some(cert)) => Some(
                    ConfigView { uuid: uuid, tls_key: key, tls_cert: cert },
                ),
                _ => None,
            },
            _ => None,
        },
        _ => None,
    }
}

impl Config {
    /// The configuration file's bytes for this configuration.
    pub fn save(&self) -> (r: Vec<u8>)
        ensures
            r@ == spec_encode_config(self@),
    {
        let mut fields: Vec<(Vec<u8>, Json)> = Vec::new();
        fields.push((key_uuid_bytes(), Json::Str(clone_bytes(self.uuid.as_slice()))));
        fields.push((key_tls_key_bytes(), Json::Str(b64_encode(&self.tls_key))));
        fields.push((key_tls_cert_bytes(), Json::Str(b64_encode(&self.tls_cert))));
        let obj = Json::Obj(fields);
        proof {
            crate::json::lemma_views_of_fields(obj->Obj_0@);
            assert(crate::json::views_of_fields(obj->Obj_0@) =~= config_fields(self@));
        }
        to_json_bytes(&obj)
    }

    /// The configuration read back from file bytes.
    pub fn load(bytes: &Vec<u8>) -> (r: Result<Config, ()>)
        requires
            bytes@.len() < usize::MAX,
        ensures
            match r {
                Ok(c) => spec_decode_config(bytes@) == Some(c@),
                Err(e) => spec_decode_config(bytes@) is None,
            },
    {
        let parsed = match parse_json(bytes) {
            Ok(v) => v,
            Err(()) => {
                return Err(());
            },
        };
        match parsed {
            Json::Obj(fields) => {
                let ghost fs = crate::json::views_of_fields(fields@);
                proof {
                    crate::json::lemma_views_of_fields(fields@);
                }
                let ku = key_uuid_bytes();
                let uuid: Vec<u8> = match find_field(&fields, ku.as_slice()) {
                    Some(i) => match &fields[i].1 {
                        Json::Str(s) => clone_bytes(s.as_slice()),
                        _ => {
                            return Err(());
                        },
                    },
                    None => {
                        return Err(());
                    },
                };
                let kk = key_tls_key_bytes();
                let tls_key: Vec<u8> = match find_field(&fields, kk.as_slice()) {
                    Some(i) => match &fields[i].1 {
                        Json::Str(s) => match b64_decode(s) {
                            Ok(b) => b,
                            Err(()) => {
                                return Err(());
                            },
                        },
                        _ => {
                            return Err(());
                        },
                    },
                    None => {
                        return Err(());
                    },
                };
                let kc = key_tls_cert_bytes();
                let tls_cert: Vec<u8> = match find_field(&fields, kc.as_slice()) {
                    Some(i) => match &fields[i].1 {
                        Json::Str(s) => match b64_decode(s) {
                            Ok(b) => b,
                            Err(()) => {
                                return Err(());
                            },
                        },
                        _ => {
                            return Err(());
                        },
                    },
                    None => {
                        return Err(());
                    },
                };
                Ok(Config { uuid, tls_key, tls_cert })
            },
            _ => Err(()),
        }
    }

    /// A fresh configuration from a new identifier and a newly generated
    /// credential (the caller generates both), together with the decision
    /// that it must be written out.
    pub fn init(uuid: Vec<u8>, tls_key: Vec<u8>, tls_cert: Vec<u8>) -> (r: Config)
        ensures
            r@ == (ConfigView { uuid: uuid@, tls_key: tls_key@, tls_cert: tls_cert@ }),
    {
        Config { uuid, tls_key, tls_cert }
    }

    /// Load the configuration from the file contents when the file exists,
    /// otherwise adopt the freshly generated one and report that it must
    /// be saved.
    pub fn init_or_load(existing: Option<&Vec<u8>>, fresh: Config) -> (r: Result<(Config, bool), ()>)
        requires
            match existing {
                Some(bytes) => bytes@.len() < usize::MAX,
                None => true,
            },
        ensures
            match existing {
                Some(bytes) => match r {
                    Ok(p) => spec_decode_config(bytes@) == Some(p.0@) && p.1 == false,
                    Err(e) => spec_decode_config(bytes@) is None,
                },
                None => r matches Ok(p) && p.0@ == fresh@ && p.1 == true,
            },
    {
        match existing {
            Some(bytes) => match Config::load(bytes) {
                Ok(c) => Ok((c, false)),
                Err(()) => Err(()),
            },
            None => Ok((fresh, true)),
        }
    }
}

/// The certificate validity window: seven weeks before `now` to ten years
/// (of 365 days) after, in seconds since the epoch.
pub fn cert_validity_window(now_secs: i64) -> (r: (i64, i64))
    requires
        now_secs >= i64::MIN + 4233600,
        now_secs <= i64::MAX - 315360000,
    ensures
        r.0 == now_secs - 4233600,
        r.1 == now_secs + 315360000,
        r.0 < now_secs < r.1,
{
    (now_secs - 4233600, now_secs + 315360000)
}

/// Saving a configuration and loading the bytes back yields the same three
/// fields, byte for byte, whatever bytes the three fields hold.
pub proof fn lemma_config_round_trip(v: ConfigView)
    ensures
        spec_decode_config(spec_encode_config(v)) == Some(v),
{
    reveal_with_fuel(obj_get, 5);
    let fs = config_fields(v);
    let j = JsonView::Obj(fs);
    lemma_parse_all_ser(j);
    assert(spec_parse_all(spec_encode_config(v)) == Some(j));
    let f1 = fs.drop_first();
    let f2 = f1.drop_first();
    let f3 = f2.drop_first();
    assert(f1 =~= seq![
        (key_tls_key(), JsonView::Str(spec_b64_encode(v.tls_key))),
        (key_tls_cert(), JsonView::Str(spec_b64_encode(v.tls_cert))),
    ]);
    assert(f2 =~= seq![(key_tls_cert(), JsonView::Str(spec_b64_encode(v.tls_cert)))]);
    assert(f3 =~= Seq::<(Seq<u8>, JsonView)>::empty());
    assert(key_uuid()[0] != key_tls_key()[0]);
    assert(key_uuid()[0] != key_tls_cert()[0]);
    assert(key_tls_key().len() != key_tls_cert().len());
    assert(obj_get(fs, key_uuid()) == Some(JsonView::Str(v.uuid)));
    assert(obj_get(fs, key_tls_key()) == Some(JsonView::Str(spec_b64_encode(v.tls_key))));
    assert(obj_get(fs, key_tls_cert()) == Some(JsonView::Str(spec_b64_encode(v.tls_cert))));
    lemma_b64_round_trip(v.tls_key);
    lemma_b64_round_trip(v.tls_cert);
    assert(spec_decode_config(spec_encode_config(v)) == Some(
        ConfigView { uuid: v.uuid, tls_key: v.tls_key, tls_cert: v.tls_cert },
    ));
    assert(ConfigView { uuid: v.uuid, tls_key: v.tls_key, tls_cert: v.tls_cert } =~= v);
}

} // verus!
