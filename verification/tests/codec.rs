//! The packet codec: serialization, parsing, and the wire line form.

use kdeconnect::json::{parse_json, to_json_bytes, Json};
use kdeconnect::packet::{
    packet_type_identity, packet_type_pair, parse_packet, NetworkPacket, PacketType, PairPacket,
    PayloadTransferInfo,
};

fn obj(fields: Vec<(&str, Json)>) -> Json {
    Json::Obj(fields.into_iter().map(|(k, v)| (k.as_bytes().to_vec(), v)).collect())
}

fn text(s: &str) -> Json {
    Json::Str(s.as_bytes().to_vec())
}

#[test]
fn json_round_trips_nested_values() {
    let v = obj(vec![
        ("a", Json::Null),
        ("b", Json::Bool(true)),
        ("c", Json::UInt(18446744073709551615)),
        ("d", text("hello world")),
        ("e", Json::Arr(vec![Json::UInt(1), Json::Bool(false), text("x")])),
        ("f", obj(vec![("inner", Json::Arr(vec![]))])),
        ("g", obj(vec![])),
    ]);
    let bytes = to_json_bytes(&v);
    let back = parse_json(&bytes).expect("canonical serialization must parse");
    assert_eq!(back, v);
}

#[test]
fn json_serialization_is_plain_compact_json() {
    let v = obj(vec![("k", Json::UInt(7)), ("s", text("ab"))]);
    let bytes = to_json_bytes(&v);
    assert_eq!(String::from_utf8(bytes).unwrap(), "{\"k\":7,\"s\":\"ab\"}");
}

#[test]
fn serde_json_accepts_the_canonical_form() {
    let v = obj(vec![
        ("name", text("peer")),
        ("n", Json::UInt(42)),
        ("caps", Json::Arr(vec![text("a"), text("b")])),
    ]);
    let bytes = to_json_bytes(&v);
    let parsed: serde_json::Value = serde_json::from_slice(&bytes).expect("valid JSON");
    assert_eq!(parsed["name"], serde_json::Value::String("peer".to_string()));
    assert_eq!(parsed["n"], serde_json::Value::from(42u64));
    assert_eq!(parsed["caps"][1], serde_json::Value::String("b".to_string()));
}

#[test]
fn json_rejects_number_overflow() {
    let line = b"18446744073709551616".to_vec();
    assert!(parse_json(&line).is_err());
    assert!(parse_json(&b"-18446744073709551616".to_vec()).is_err());
}

#[test]
fn negative_integers_round_trip_and_fractions_are_rejected() {
    let v = obj(vec![("dx", Json::NegInt(12)), ("dy", Json::UInt(3))]);
    let bytes = to_json_bytes(&v);
    assert_eq!(String::from_utf8(bytes.clone()).unwrap(), "{\"dx\":-12,\"dy\":3}");
    assert_eq!(parse_json(&bytes).unwrap(), v);
    assert_eq!(parse_json(&b"-0".to_vec()).unwrap(), Json::NegInt(0));
    // Fractions and exponents are early errors, never misreadings.
    assert!(parse_json(&b"1.5".to_vec()).is_err());
    assert!(parse_json(&b"-1.5".to_vec()).is_err());
    assert!(parse_json(&b"1e5".to_vec()).is_err());
    assert!(parse_json(&b"-".to_vec()).is_err());
}

#[test]
fn json_rejects_unterminated_string_and_trailing_data() {
    assert!(parse_json(&b"\"abc".to_vec()).is_err());
    assert!(parse_json(&b"1 2".to_vec()).is_err());
}

#[test]
fn packet_round_trips_without_payload() {
    let p = NetworkPacket::new(
        b"kdeconnect.ping".to_vec(),
        obj(vec![("message", text("hi"))]),
        1234567,
    );
    let line = p.serialize();
    assert_eq!(*line.last().unwrap(), 0x0a);
    let back = parse_packet(&line).expect("round trip");
    assert_eq!(back, p);
}

#[test]
fn packet_round_trips_with_payload_metadata() {
    let mut p = NetworkPacket::new(b"kdeconnect.share.request".to_vec(), obj(vec![]), 99);
    p.set_payload(1234567, 1765);
    let line = p.serialize();
    let back = parse_packet(&line).expect("round trip");
    assert_eq!(back.payload_size, Some(1234567));
    assert_eq!(back.payload_transfer_info, Some(PayloadTransferInfo { port: 1765 }));
    assert_eq!(back, p);
}

#[test]
fn parse_packet_reads_only_the_first_line() {
    let p = NetworkPacket::new(packet_type_pair(), obj(vec![("pair", Json::Bool(true))]), 5);
    let mut line = p.serialize();
    line.extend_from_slice(b"{\"type\":\"garbage\"}\n");
    let back = parse_packet(&line).expect("first line");
    assert_eq!(back, p);
}

#[test]
fn parse_packet_accepts_peer_field_order() {
    let line = b"{\"id\":17,\"body\":{\"pair\":true},\"type\":\"kdeconnect.pair\"}\n".to_vec();
    let p = parse_packet(&line).expect("reordered members");
    assert_eq!(p.typ, b"kdeconnect.pair".to_vec());
    assert_eq!(p.id, 17);
    assert!(p.payload_size.is_none());
}

#[test]
fn parse_packet_rejects_missing_members() {
    assert!(parse_packet(&b"{\"type\":\"x\"}\n".to_vec()).is_err());
    assert!(parse_packet(&b"{\"body\":{},\"id\":1}\n".to_vec()).is_err());
    assert!(parse_packet(&b"not json\n".to_vec()).is_err());
}

#[test]
fn packet_type_constants_spell_the_protocol_names() {
    assert_eq!(packet_type_identity(), b"kdeconnect.identity".to_vec());
    assert_eq!(packet_type_pair(), b"kdeconnect.pair".to_vec());
}

#[test]
fn strings_with_quotes_and_backslashes_round_trip() {
    let v = obj(vec![
        ("quote", text("a\"b")),
        ("backslash", text("a\\b")),
        ("control", Json::Str(vec![0x07, 0x1f])),
        ("newline", text("line1\nline2")),
    ]);
    let bytes = to_json_bytes(&v);
    let rendered = String::from_utf8(bytes.clone()).unwrap();
    assert!(rendered.contains("a\\\"b"));
    assert!(rendered.contains("a\\\\b"));
    assert!(rendered.contains("\\u0007"));
    let back = parse_json(&bytes).expect("escaped form parses");
    assert_eq!(back, v);
    // The reference JSON implementation agrees with the escaped form.
    let reference: serde_json::Value = serde_json::from_slice(&to_json_bytes(&v)).unwrap();
    assert_eq!(reference["quote"], serde_json::Value::String("a\"b".to_string()));
}

#[test]
fn whitespace_between_tokens_is_tolerated() {
    let line = b" { \"type\" :\t\"kdeconnect.pair\" , \"body\" : { \"pair\" : true } , \"id\" : 7 } \n"
        .to_vec();
    let p = parse_packet(&line).expect("spaced members parse");
    assert_eq!(p.typ, b"kdeconnect.pair".to_vec());
    assert_eq!(p.id, 7);
    let spaced_array = b" [ 1 , 2 , [ ] ] ".to_vec();
    assert_eq!(
        parse_json(&spaced_array).unwrap(),
        Json::Arr(vec![Json::UInt(1), Json::UInt(2), Json::Arr(vec![])]),
    );
}

#[test]
fn peer_escapes_are_unescaped_not_misread() {
    // One escaped backslash means one byte, never two.
    let back = parse_json(&b"\"a\\\\b\"".to_vec()).expect("escape parses");
    assert_eq!(back, Json::Str(b"a\\b".to_vec()));
    // Simple escapes and BMP unicode escapes decode to their bytes.
    let back2 = parse_json(&b"\"\\\"\\n\\t\\u0041\\u00e9\\u20ac\"".to_vec()).unwrap();
    assert_eq!(
        back2,
        Json::Str(vec![0x22, 0x0a, 0x09, 0x41, 0xc3, 0xa9, 0xe2, 0x82, 0xac]),
    );
    // A lone backslash, an unknown escape and a surrogate are errors.
    assert!(parse_json(&b"\"a\\\"".to_vec()).is_err());
    assert!(parse_json(&b"\"\\x\"".to_vec()).is_err());
    assert!(parse_json(&b"\"\\ud800\"".to_vec()).is_err());
}

#[test]
fn typed_bodies_know_their_tags() {
    let b = PacketType::BatteryRequest { request: true };
    assert_eq!(b.packet_type(), b"kdeconnect.battery.request".to_vec());
    assert_eq!(b.body_json(), obj(vec![("request", Json::Bool(true))]));
    let c = PacketType::Clipboard { content: Some(b"x".to_vec()) };
    assert_eq!(c.packet_type(), b"kdeconnect.clipboard".to_vec());
    assert_eq!(c.body_json(), obj(vec![("content", text("x"))]));
    let cc = PacketType::ClipboardConnect { timestamp: 5, content: None };
    assert_eq!(cc.packet_type(), b"kdeconnect.clipboard.connect".to_vec());
    assert_eq!(cc.body_json(), obj(vec![("timestamp", Json::UInt(5))]));
    assert_eq!(
        PairPacket { pair: true }.body_json(),
        obj(vec![("pair", Json::Bool(true))]),
    );
}

#[test]
fn reset_ts_restamps_only_the_id() {
    let mut p = NetworkPacket::new(b"t".to_vec(), obj(vec![]), 1);
    p.reset_ts(2);
    assert_eq!(p.id, 2);
    assert_eq!(p.typ, b"t".to_vec());
}
