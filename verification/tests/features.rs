//! Notification handling, system-volume bodies, the tray model, and the
//! event debouncer.

use kdeconnect::audio::AudioSinkInfo;
use kdeconnect::event::{debounce_step, MenuId, SystemEvent};
use kdeconnect::json::Json;
use kdeconnect::manager::DeviceManager;
use kdeconnect::plugin::notification::{
    notification_cancel_body, notification_from_json, notification_toast,
    should_request_remote_dismiss, NotificationBody,
};
use kdeconnect::plugin::mpris::{mpris_request_from_json, MediaAction};
use kdeconnect::plugin::system_volume::{sink_list_body, volume_update_body};
use kdeconnect::toast::DismissalReason;
use kdeconnect::tray::{tray_icon_present, tray_menu_model, TrayMenuEntry};

fn posted_fields() -> Vec<(Vec<u8>, Json)> {
    vec![
        (b"id".to_vec(), Json::Str(b"n-1".to_vec())),
        (b"onlyOnce".to_vec(), Json::Bool(false)),
        (b"isClearable".to_vec(), Json::Bool(true)),
        (b"appName".to_vec(), Json::Str(b"Mail".to_vec())),
        (b"time".to_vec(), Json::Str(b"1700000000000".to_vec())),
        (b"title".to_vec(), Json::Str(b"Hello".to_vec())),
        (b"text".to_vec(), Json::Str(b"Body".to_vec())),
    ]
}

#[test]
fn cancelled_notifications_are_recognised_first() {
    let body = Json::Obj(vec![
        (b"id".to_vec(), Json::Str(b"n-1".to_vec())),
        (b"isCancel".to_vec(), Json::Bool(true)),
    ]);
    assert_eq!(
        notification_from_json(&body),
        Ok(NotificationBody::Cancelled { id: b"n-1".to_vec(), is_cancel: true }),
    );
}

#[test]
fn posted_notifications_carry_their_members() {
    let body = Json::Obj(posted_fields());
    match notification_from_json(&body) {
        Ok(NotificationBody::Posted(n)) => {
            assert_eq!(n.id, b"n-1".to_vec());
            assert_eq!(n.app_name, b"Mail".to_vec());
            assert_eq!(n.title, Some(b"Hello".to_vec()));
            assert_eq!(n.text, Some(b"Body".to_vec()));
            assert_eq!(n.payload_hash, None);
            assert!(n.is_clearable);
        }
        other => panic!("expected a posted notification, got {:?}", other),
    }
}

#[test]
fn malformed_notifications_are_rejected() {
    let body = Json::Obj(vec![(b"id".to_vec(), Json::Str(b"n-1".to_vec()))]);
    assert!(notification_from_json(&body).is_err());
    assert!(notification_from_json(&Json::Bool(true)).is_err());
}

#[test]
fn notification_toasts_are_tagged_by_the_id_digest() {
    let body = Json::Obj(posted_fields());
    let posted = match notification_from_json(&body).unwrap() {
        NotificationBody::Posted(n) => n,
        _ => unreachable!(),
    };
    let toast = notification_toast(&posted, &b"A phone".to_vec(), b"group-1".to_vec())
        .expect("title and text are set");
    // md5("n-1") as the tag; md5("Mail") as the header id.
    assert_eq!(toast.tag.as_ref().unwrap(), &b"a438673491daae8148eae77373b6a467".to_vec());
    assert_eq!(
        toast.header.as_ref().unwrap().id,
        format!("{:x}", md5::compute(b"Mail")).into_bytes(),
    );
    assert_eq!(toast.group.as_ref().unwrap(), &b"group-1".to_vec());
    assert_eq!(toast.remote_id.as_ref().unwrap(), &b"n-1".to_vec());
    assert_eq!(toast.expires_in_secs, Some(43200));
    assert_eq!(toast.text.2.as_ref().unwrap().content, b"A phone".to_vec());
}

#[test]
fn notifications_without_text_show_nothing() {
    let mut fields = posted_fields();
    fields.retain(|(k, _)| k != b"text");
    let posted = match notification_from_json(&Json::Obj(fields)).unwrap() {
        NotificationBody::Posted(n) => n,
        _ => unreachable!(),
    };
    assert!(notification_toast(&posted, &b"A phone".to_vec(), b"g".to_vec()).is_none());
}

#[test]
fn dismissals_by_the_user_are_forwarded() {
    assert!(should_request_remote_dismiss(DismissalReason::UserCanceled));
    assert!(!should_request_remote_dismiss(DismissalReason::ApplicationHidden));
    assert!(!should_request_remote_dismiss(DismissalReason::TimedOut));
    assert_eq!(
        notification_cancel_body(&b"n-1".to_vec()),
        Json::Obj(vec![(b"cancel".to_vec(), Json::Str(b"n-1".to_vec()))]),
    );
}

#[test]
fn sink_lists_carry_every_sink_with_max_volume_100() {
    let sinks = vec![
        AudioSinkInfo {
            name: b"out-1".to_vec(),
            description: b"Speakers".to_vec(),
            is_active: true,
            is_muted: false,
            volume: 66,
        },
        AudioSinkInfo {
            name: b"out-2".to_vec(),
            description: b"Headphones".to_vec(),
            is_active: false,
            is_muted: true,
            volume: 10,
        },
    ];
    let body = sink_list_body(&sinks);
    let expected_first = Json::Obj(vec![
        (b"name".to_vec(), Json::Str(b"out-1".to_vec())),
        (b"description".to_vec(), Json::Str(b"Speakers".to_vec())),
        (b"muted".to_vec(), Json::Bool(false)),
        (b"volume".to_vec(), Json::UInt(66)),
        (b"maxVolume".to_vec(), Json::UInt(100)),
        (b"enabled".to_vec(), Json::Bool(true)),
    ]);
    match body {
        Json::Obj(fields) => {
            assert_eq!(fields.len(), 1);
            assert_eq!(fields[0].0, b"sinkList".to_vec());
            match &fields[0].1 {
                Json::Arr(items) => {
                    assert_eq!(items.len(), 2);
                    assert_eq!(items[0], expected_first);
                }
                other => panic!("expected an array, got {:?}", other),
            }
        }
        other => panic!("expected an object, got {:?}", other),
    }
}

#[test]
fn volume_updates_carry_name_volume_muted() {
    assert_eq!(
        volume_update_body(&b"out-1".to_vec(), 40, true),
        Json::Obj(vec![
            (b"name".to_vec(), Json::Str(b"out-1".to_vec())),
            (b"volume".to_vec(), Json::UInt(40)),
            (b"muted".to_vec(), Json::Bool(true)),
        ]),
    );
}

#[test]
fn tray_follows_the_device_table() {
    let mut m = DeviceManager::new();
    assert!(!tray_icon_present(m.active_device_count()));
    let idle = tray_menu_model(&m);
    assert_eq!(idle.len(), 3);
    assert!(matches!(idle[0], TrayMenuEntry::Disabled(_)));
    assert!(matches!(idle[2], TrayMenuEntry::Quit));

    m.add_device(b"a".to_vec(), b"Phone".to_vec(), b"10.0.0.2".to_vec(), 1716);
    assert!(tray_icon_present(m.active_device_count()));
    let busy = tray_menu_model(&m);
    assert_eq!(busy.len(), 3);
    match &busy[0] {
        TrayMenuEntry::Device { name, remote_ip } => {
            assert_eq!(name, &b"Phone".to_vec());
            assert_eq!(remote_ip, &b"10.0.0.2".to_vec());
        }
        other => panic!("expected a device line, got {:?}", other),
    }
}

#[test]
fn media_requests_are_read_leniently() {
    let body = Json::Obj(vec![
        (b"player".to_vec(), Json::Str(b"Spotify".to_vec())),
        (b"requestNowPlaying".to_vec(), Json::Bool(true)),
        (b"action".to_vec(), Json::Str(b"PlayPause".to_vec())),
    ]);
    let req = mpris_request_from_json(&body).expect("an object parses");
    assert_eq!(req.player, Some(b"Spotify".to_vec()));
    assert!(req.request_now_playing);
    assert!(!req.request_player_list);
    assert_eq!(req.action, Some(MediaAction::PlayPause));
    assert_eq!(req.album_art_url, None);

    let unknown = Json::Obj(vec![(b"action".to_vec(), Json::Str(b"Rewind".to_vec()))]);
    let req2 = mpris_request_from_json(&unknown).unwrap();
    assert_eq!(req2.action, None);
    assert!(mpris_request_from_json(&Json::UInt(3)).is_err());
}

#[test]
fn the_debouncer_swallows_repeats_and_releases_changes() {
    let click = SystemEvent::TrayMenuClicked(MenuId(1));
    let clip = SystemEvent::ClipboardUpdated;
    assert_eq!(debounce_step(None, clip), (None, Some(clip)));
    assert_eq!(debounce_step(Some(clip), clip), (None, Some(clip)));
    assert_eq!(debounce_step(Some(clip), click), (Some(clip), Some(click)));
}
