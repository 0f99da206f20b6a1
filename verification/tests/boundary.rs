//! Port selection, payload checks, base64, and the configuration file.

use kdeconnect::base64::{b64_decode, b64_encode};
use kdeconnect::config::{cert_validity_window, Config};
use kdeconnect::discovery::should_broadcast;
use kdeconnect::net::{keepalive_params, select_main_port, select_payload_port};
use kdeconnect::payload::{check_fetched_payload, plan_payload_serve, PayloadError};
use kdeconnect::packet::NetworkPacket;
use kdeconnect::json::Json;

#[test]
fn first_port_free_binds_1716() {
    let mut outcomes = vec![false; 49];
    outcomes[0] = true;
    assert_eq!(select_main_port(&outcomes), Some(1716));
}

#[test]
fn last_port_free_binds_1764() {
    let mut outcomes = vec![false; 49];
    outcomes[48] = true;
    assert_eq!(select_main_port(&outcomes), Some(1764));
}

#[test]
fn all_ports_busy_is_fatal() {
    let outcomes = vec![false; 49];
    assert_eq!(select_main_port(&outcomes), None);
}

#[test]
fn first_free_port_wins_over_later_ones() {
    let mut outcomes = vec![false; 49];
    outcomes[3] = true;
    outcomes[10] = true;
    assert_eq!(select_main_port(&outcomes), Some(1719));
}

#[test]
fn payload_ports_start_at_1765() {
    assert_eq!(select_payload_port(&vec![true]), Some(1765));
    assert_eq!(select_payload_port(&vec![false, true]), Some(1766));
    assert_eq!(select_payload_port(&vec![false, false]), None);
}

#[test]
fn keepalive_is_ten_then_five_seconds() {
    assert_eq!(keepalive_params(), (10, 5));
}

#[test]
fn payload_size_mismatch_is_an_error() {
    let short = vec![0u8; 1234566];
    match check_fetched_payload(short, 1234567) {
        Err(PayloadError::SizeMismatch { fetched, requested }) => {
            assert_eq!(fetched, 1234566);
            assert_eq!(requested, 1234567);
        }
        Ok(_) => panic!("a short read must fail"),
    }
    let exact = vec![7u8; 1024];
    assert_eq!(check_fetched_payload(exact.clone(), 1024), Ok(exact));
}

#[test]
fn payload_plan_serves_exactly_the_declared_bytes() {
    let mut p = NetworkPacket::new(b"kdeconnect.share.request".to_vec(), Json::Obj(vec![]), 1);
    let payload = vec![9u8; 4096];
    let plan = plan_payload_serve(&mut p, payload.clone(), 1767);
    assert_eq!(p.payload_size, Some(plan.bytes.len() as u64));
    assert_eq!(plan.bytes, payload);
    assert_eq!(plan.port, 1767);
}

#[test]
fn broadcast_happens_exactly_when_idle() {
    assert!(should_broadcast(0));
    assert!(!should_broadcast(1));
    assert!(!should_broadcast(7));
}

#[test]
fn base64_agrees_with_the_base64_crate() {
    let samples: Vec<Vec<u8>> = vec![
        b"".to_vec(),
        b"f".to_vec(),
        b"fo".to_vec(),
        b"foo".to_vec(),
        b"foob".to_vec(),
        b"fooba".to_vec(),
        b"foobar".to_vec(),
        (0u8..=255).collect(),
    ];
    for s in samples {
        let mine = String::from_utf8(b64_encode(&s)).unwrap();
        assert_eq!(mine, base64::encode(&s));
        assert_eq!(b64_decode(&mine.into_bytes()), Ok(s));
    }
}

#[test]
fn base64_rejects_garbage() {
    assert!(b64_decode(&b"Zm9!".to_vec()).is_err());
    assert!(b64_decode(&b"Zm9".to_vec()).is_err());
    assert!(b64_decode(&b"Zg==Zg==".to_vec()).is_err());
}

#[test]
fn config_saves_and_loads_byte_for_byte() {
    let c = Config::init(
        b"0a1b2c3d-0000-4444-8888-ffffffffffff".to_vec(),
        vec![0x30, 0x82, 0x01, 0x22, 0x00, 0xff, 0x7f],
        vec![0x30, 0x82, 0x02, 0x10, 0x01, 0x02, 0x03, 0x04, 0x05],
    );
    let bytes = c.save();
    let back = Config::load(&bytes).expect("round trip");
    assert_eq!(back, c);
}

#[test]
fn config_round_trips_even_a_quoted_uuid() {
    let c = Config::init(
        b"odd\"uuid\\with\nescapes".to_vec(),
        b"k".to_vec(),
        b"c".to_vec(),
    );
    let bytes = c.save();
    let back = Config::load(&bytes).expect("round trip holds for every uuid");
    assert_eq!(back, c);
}

#[test]
fn config_file_is_json_with_base64_fields() {
    let c = Config::init(b"some-uuid".to_vec(), b"KEY".to_vec(), b"CERT".to_vec());
    let bytes = c.save();
    let v: serde_json::Value = serde_json::from_slice(&bytes).expect("valid JSON");
    assert_eq!(v["uuid"], serde_json::Value::String("some-uuid".to_string()));
    assert_eq!(v["tls_key"], serde_json::Value::String(base64::encode(b"KEY")));
    assert_eq!(v["tls_cert"], serde_json::Value::String(base64::encode(b"CERT")));
}

#[test]
fn init_or_load_prefers_the_existing_file() {
    let existing = Config::init(b"old".to_vec(), b"k".to_vec(), b"c".to_vec());
    let bytes = existing.save();
    let fresh = Config::init(b"new".to_vec(), b"k2".to_vec(), b"c2".to_vec());
    let (loaded, must_save) = Config::init_or_load(Some(&bytes), fresh).expect("load");
    assert_eq!(loaded, existing);
    assert!(!must_save);
    let fresh2 = Config::init(b"new".to_vec(), b"k2".to_vec(), b"c2".to_vec());
    let (created, must_save2) = Config::init_or_load(None, fresh2).expect("fresh");
    assert_eq!(created.uuid, b"new".to_vec());
    assert!(must_save2);
}

#[test]
fn init_or_load_rejects_a_corrupt_file() {
    let fresh = Config::init(b"new".to_vec(), b"k".to_vec(), b"c".to_vec());
    assert!(Config::init_or_load(Some(&b"{broken".to_vec()), fresh).is_err());
}

#[test]
fn certificate_validity_spans_seven_weeks_back_ten_years_on() {
    let (not_before, not_after) = cert_validity_window(1_700_000_000);
    assert_eq!(not_before, 1_700_000_000 - 7 * 7 * 86400);
    assert_eq!(not_after, 1_700_000_000 + 10 * 365 * 86400);
}
