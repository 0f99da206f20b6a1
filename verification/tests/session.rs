//! The connection handshake, steady-state line handling, capability
//! routing, identity bodies, and the plugin decision procedures.

use kdeconnect::conn::{handle_first_line, handle_line, HandshakeError, InboundAction};
use kdeconnect::discovery::make_identity_packet;
use kdeconnect::event::{MenuId, SystemEvent};
use kdeconnect::identity::{identity_from_json, IdentityPacket};
use kdeconnect::json::Json;
use kdeconnect::packet::{parse_packet, NetworkPacket};
use kdeconnect::plugin::battery::{
    battery_report_from_json, battery_report_from_power_status, BatteryReport,
};
use kdeconnect::plugin::clipboard::{clipboard_inbound_text, clipboard_send_body, ClipboardContent};
use kdeconnect::plugin::ping::ping_packet;
use kdeconnect::plugin::share::{share_action, ShareAction};
use kdeconnect::plugin::{standard_repository, PluginId};
use kdeconnect::toast::simple_toast_value;
use kdeconnect::toast::text::TextPlacement;
use kdeconnect::utils::{artifact_cache_name, new_uuid_bytes, unix_ts_ms};
use kdeconnect::utils::hostname_bytes;

fn sample_identity() -> IdentityPacket {
    IdentityPacket {
        device_id: b"A-uuid".to_vec(),
        device_name: b"A".to_vec(),
        protocol_version: 7,
        device_type: b"desktop".to_vec(),
        incoming_capabilities: vec![b"kdeconnect.ping".to_vec()],
        outgoing_capabilities: vec![b"kdeconnect.ping".to_vec(), b"kdeconnect.battery".to_vec()],
        tcp_port: Some(1716),
    }
}

#[test]
fn identity_body_round_trips() {
    let ident = sample_identity();
    let body = ident.to_json();
    let back = identity_from_json(&body).expect("round trip");
    assert_eq!(back, ident);
}

#[test]
fn identity_line_passes_the_handshake() {
    let ident = sample_identity();
    let packet = make_identity_packet(&ident, 424242);
    let line = packet.serialize();
    let back = handle_first_line(&line).expect("handshake");
    assert_eq!(back.device_id, b"A-uuid".to_vec());
    assert_eq!(back.device_name, b"A".to_vec());
    assert_eq!(back.protocol_version, 7);
}

#[test]
fn non_identity_first_line_closes_the_connection() {
    let p = NetworkPacket::new(b"kdeconnect.ping".to_vec(), Json::Obj(vec![]), 1);
    let line = p.serialize();
    assert_eq!(handle_first_line(&line), Err(HandshakeError::NotIdentity));
    assert_eq!(handle_first_line(&b"garbage\n".to_vec()), Err(HandshakeError::NotAPacket));
}

#[test]
fn pair_requests_are_answered_in_place() {
    let pair_line =
        b"{\"type\":\"kdeconnect.pair\",\"body\":{\"pair\":true},\"id\":7}\n".to_vec();
    match handle_line(&pair_line, 555) {
        InboundAction::ReplyPair(reply) => {
            assert_eq!(reply.typ, b"kdeconnect.pair".to_vec());
            assert_eq!(reply.id, 555);
            let reparsed = parse_packet(&reply.serialize()).unwrap();
            assert_eq!(
                reparsed.body,
                Json::Obj(vec![(b"pair".to_vec(), Json::Bool(true))]),
            );
        }
        _ => panic!("a pair request must be acknowledged, not dispatched"),
    }
}

#[test]
fn ordinary_packets_are_dispatched_and_garbage_is_dropped() {
    let ping_line = ping_packet(None, 9).serialize();
    match handle_line(&ping_line, 10) {
        InboundAction::Dispatch(p) => assert_eq!(p.typ, b"kdeconnect.ping".to_vec()),
        _ => panic!("a ping must be dispatched"),
    }
    match handle_line(&b"\x02not a line\n".to_vec(), 10) {
        InboundAction::Drop => {}
        _ => panic!("garbage must be dropped"),
    }
}

#[test]
fn notification_caps_match_the_advertised_identity() {
    let repo = standard_repository();
    let n = repo.handle_packet(b"kdeconnect.notification").expect("notifications route");
    assert_eq!(repo.plugin_at(n), PluginId::NotificationReceive);
    // Requests and replies are outbound only: no plugin consumes them.
    assert!(repo.handle_packet(b"kdeconnect.notification.request").is_err());
    assert!(repo.outgoing_caps.contains(&b"kdeconnect.notification.request".to_vec()));
    assert!(repo.outgoing_caps.contains(&b"kdeconnect.notification.reply".to_vec()));
    assert!(!repo.incoming_caps.contains(&b"kdeconnect.notification.request".to_vec()));
    let m = repo.handle_packet(b"kdeconnect.mousepad.request").expect("mousepad routes");
    assert_eq!(repo.plugin_at(m), PluginId::InputReceive);
}

#[test]
fn quoted_device_names_survive_the_handshake() {
    let mut ident = sample_identity();
    ident.device_name = b"Alice\"s \\ phone".to_vec();
    let line = make_identity_packet(&ident, 1).serialize();
    let back = handle_first_line(&line).expect("escaped name passes");
    assert_eq!(back.device_name, b"Alice\"s \\ phone".to_vec());
}

#[test]
fn capability_routing_first_match_wins() {
    let repo = standard_repository();
    let battery = repo.handle_packet(b"kdeconnect.battery").expect("battery routes");
    assert_eq!(repo.plugin_at(battery), PluginId::Battery);
    let clip = repo.handle_packet(b"kdeconnect.clipboard").expect("clipboard routes");
    assert_eq!(repo.plugin_at(clip), PluginId::Clipboard);
    let ping = repo.handle_packet(b"kdeconnect.ping").expect("ping routes");
    assert_eq!(repo.plugin_at(ping), PluginId::Ping);
    assert!(repo.handle_packet(b"kdeconnect.nonesuch").is_err());
}

#[test]
fn battery_reports_follow_the_power_status() {
    assert_eq!(
        battery_report_from_power_status(1, 8, 77, 0),
        Some(BatteryReport { current_charge: 77, is_charging: true, threshold_event: 0 }),
    );
    assert_eq!(
        battery_report_from_power_status(0, 1, 15, 1),
        Some(BatteryReport { current_charge: 15, is_charging: false, threshold_event: 1 }),
    );
    assert_eq!(battery_report_from_power_status(255, 8, 50, 0), None);
    assert_eq!(battery_report_from_power_status(1, 128, 50, 0), None);
    assert_eq!(battery_report_from_power_status(1, 255, 50, 0), None);
}

#[test]
fn battery_body_carries_the_three_members() {
    let body = BatteryReport { current_charge: 42, is_charging: true, threshold_event: 0 }
        .to_json();
    assert_eq!(
        body,
        Json::Obj(vec![
            (b"currentCharge".to_vec(), Json::UInt(42)),
            (b"isCharging".to_vec(), Json::Bool(true)),
            (b"thresholdEvent".to_vec(), Json::UInt(0)),
        ]),
    );
}

#[test]
fn peer_battery_reports_are_read_back() {
    let body = Json::Obj(vec![
        (b"currentCharge".to_vec(), Json::UInt(88)),
        (b"isCharging".to_vec(), Json::Bool(false)),
        (b"thresholdEvent".to_vec(), Json::UInt(1)),
    ]);
    assert_eq!(
        battery_report_from_json(&body),
        Ok(BatteryReport { current_charge: 88, is_charging: false, threshold_event: 1 }),
    );
    let too_big = Json::Obj(vec![
        (b"currentCharge".to_vec(), Json::UInt(300)),
        (b"isCharging".to_vec(), Json::Bool(false)),
        (b"thresholdEvent".to_vec(), Json::UInt(0)),
    ]);
    assert!(battery_report_from_json(&too_big).is_err());
}

#[test]
fn inbound_clipboard_text_is_extracted() {
    let body = Json::Obj(vec![(b"content".to_vec(), Json::Str(b"pasted".to_vec()))]);
    assert_eq!(clipboard_inbound_text(&body), Some(b"pasted".to_vec()));
    assert_eq!(clipboard_inbound_text(&Json::Obj(vec![])), None);
}

#[test]
fn only_text_clipboard_content_is_shared() {
    let text = ClipboardContent::Text(b"copied".to_vec());
    assert_eq!(
        clipboard_send_body(&text),
        Some(Json::Obj(vec![(b"content".to_vec(), Json::Str(b"copied".to_vec()))])),
    );
    let files = ClipboardContent::Files(vec![b"/tmp/x".to_vec()]);
    assert_eq!(clipboard_send_body(&files), None);
    assert_eq!(clipboard_send_body(&ClipboardContent::Unsupported), None);
}

#[test]
fn share_requests_pick_text_then_url() {
    let text_body = Json::Obj(vec![(b"text".to_vec(), Json::Str(b"note".to_vec()))]);
    match share_action(&text_body) {
        ShareAction::CopyText(t) => assert_eq!(t, b"note".to_vec()),
        _ => panic!("text is copied"),
    }
    let url_body = Json::Obj(vec![(b"url".to_vec(), Json::Str(b"https://e.test/".to_vec()))]);
    match share_action(&url_body) {
        ShareAction::OpenUrl(u) => assert_eq!(u, b"https://e.test/".to_vec()),
        _ => panic!("urls are opened"),
    }
    match share_action(&Json::Obj(vec![])) {
        ShareAction::Ignore => {}
        _ => panic!("anything else is ignored"),
    }
}

#[test]
fn menu_click_events_match_only_their_own_id() {
    let e = SystemEvent::TrayMenuClicked(MenuId(4));
    assert!(e.is_menu_clicked(MenuId(4)));
    assert!(!e.is_menu_clicked(MenuId(5)));
    assert!(!SystemEvent::ClipboardUpdated.is_menu_clicked(MenuId(4)));
}

#[test]
fn artifact_names_are_the_digest_plus_extension() {
    assert_eq!(
        String::from_utf8(artifact_cache_name(&Vec::new(), b".png")).unwrap(),
        "d41d8cd98f00b204e9800998ecf8427e.png",
    );
    assert_eq!(
        String::from_utf8(artifact_cache_name(&b"abc".to_vec(), b".png")).unwrap(),
        "900150983cd24fb0d6963f7d28e17f72.png",
    );
}

#[test]
fn fresh_identifiers_are_hyphenated_and_distinct() {
    let a = new_uuid_bytes();
    let b = new_uuid_bytes();
    assert_eq!(a.len(), 36);
    assert_eq!(a[8], b'-');
    assert_ne!(a, b);
    assert!(unix_ts_ms() > 0);
    let _host = hostname_bytes();
}

#[test]
fn simple_toasts_set_title_body_and_attribution() {
    let t = simple_toast_value(
        b"Ping".to_vec(),
        Some(b"message".to_vec()),
        Some(b"A device".to_vec()),
    );
    assert_eq!(t.text.0.as_ref().unwrap().content, b"Ping".to_vec());
    assert_eq!(t.text.1.as_ref().unwrap().content, b"message".to_vec());
    let attribution = t.text.2.as_ref().unwrap();
    assert_eq!(attribution.content, b"A device".to_vec());
    assert_eq!(attribution.placement, Some(TextPlacement::Attribution));
    let bare = simple_toast_value(b"T".to_vec(), None, None);
    assert!(bare.text.1.is_none());
    assert!(bare.text.2.is_none());
}
