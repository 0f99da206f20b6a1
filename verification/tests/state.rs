//! The device-manager state machine and the payload cache.

use kdeconnect::cache::PayloadCache;
use kdeconnect::manager::{ConnectionId, DeviceManager};

fn add(m: &mut DeviceManager, id: &str, name: &str) -> ConnectionId {
    m.add_device(id.as_bytes().to_vec(), name.as_bytes().to_vec(), b"10.0.0.9".to_vec(), 1716)
}

#[test]
fn add_then_query_then_count() {
    let mut m = DeviceManager::new();
    assert_eq!(m.active_device_count(), 0);
    let c1 = add(&mut m, "a-uuid", "A");
    assert_eq!(c1, ConnectionId(0));
    assert!(m.query_device(b"a-uuid"));
    assert!(!m.query_device(b"b-uuid"));
    assert_eq!(m.active_device_count(), 1);
    let c2 = add(&mut m, "b-uuid", "B");
    assert_eq!(c2, ConnectionId(1));
    assert_eq!(m.active_device_count(), 2);
}

#[test]
fn reconnect_replaces_in_place_and_fences_stale_removal() {
    let mut m = DeviceManager::new();
    let c1 = add(&mut m, "a-uuid", "A");
    let c2 = add(&mut m, "a-uuid", "A");
    assert!(c2.0 > c1.0);
    assert_eq!(m.active_device_count(), 1);
    m.remove_device(b"a-uuid", c1);
    assert!(m.query_device(b"a-uuid"));
    assert_eq!(m.active_device_count(), 1);
    m.remove_device(b"a-uuid", c2);
    assert!(!m.query_device(b"a-uuid"));
    assert_eq!(m.active_device_count(), 0);
}

#[test]
fn removal_of_absent_device_changes_nothing() {
    let mut m = DeviceManager::new();
    let c1 = add(&mut m, "a-uuid", "A");
    m.remove_device(b"never-seen", c1);
    assert_eq!(m.active_device_count(), 1);
}

#[test]
fn reconnect_keeps_first_name_and_updates_address() {
    let mut m = DeviceManager::new();
    add(&mut m, "a-uuid", "First");
    let _c2 = m.add_device(
        b"a-uuid".to_vec(),
        b"Second".to_vec(),
        b"10.0.0.7".to_vec(),
        40123,
    );
    let i = m.outbox_index(b"a-uuid").expect("present");
    let (_, device) = m.device_at(i);
    assert_eq!(device.name, b"First".to_vec());
    assert_eq!(device.remote_ip, b"10.0.0.7".to_vec());
    assert_eq!(device.remote_port, 40123);
}

#[test]
fn outbox_index_is_none_for_unknown_device() {
    let m = DeviceManager::new();
    assert!(m.outbox_index(b"a-uuid").is_none());
}

#[test]
fn fetch_payload_source_hands_back_the_remote_ip() {
    let mut m = DeviceManager::new();
    add(&mut m, "a-uuid", "A");
    assert_eq!(m.fetch_payload_source(b"a-uuid"), Some(b"10.0.0.9".to_vec()));
    assert_eq!(m.fetch_payload_source(b"b-uuid"), None);
}

#[test]
fn cache_put_then_get_yields_the_first_bytes() {
    let mut c = PayloadCache::new(10);
    let wrote = c.put(&b"name-1".to_vec(), b"first".to_vec());
    assert!(wrote);
    assert_eq!(c.get(&b"name-1".to_vec()), Some(b"first".to_vec()));
    let wrote_again = c.put(&b"name-1".to_vec(), b"second".to_vec());
    assert!(!wrote_again);
    assert_eq!(c.get(&b"name-1".to_vec()), Some(b"first".to_vec()));
}

#[test]
fn cache_eviction_keeps_the_backing_store() {
    let mut c = PayloadCache::new(10);
    for k in 0..11u32 {
        let name = format!("name-{}", k).into_bytes();
        let data = format!("data-{}", k).into_bytes();
        assert!(c.put(&name, data));
    }
    // The first name left the memory layer but not the store.
    assert!(!c.mem.contains_key(&b"name-0".to_vec()));
    assert!(c.get_path(&b"name-0".to_vec()));
    // A get repopulates memory from the store.
    assert_eq!(c.get(&b"name-0".to_vec()), Some(b"data-0".to_vec()));
    assert!(c.mem.contains_key(&b"name-0".to_vec()));
}

#[test]
fn cache_get_misses_for_unknown_names() {
    let mut c = PayloadCache::new(10);
    assert_eq!(c.get(&b"absent".to_vec()), None);
    assert!(!c.get_path(&b"absent".to_vec()));
}

#[test]
fn cache_survives_restart_through_seeding() {
    let mut c = PayloadCache::new(10);
    assert!(c.put(&b"kept".to_vec(), b"payload".to_vec()));
    // A fresh process seeds the files it finds in the cache directory.
    let mut fresh = PayloadCache::new(10);
    fresh.seed_disk(b"kept".to_vec(), b"payload".to_vec());
    assert_eq!(fresh.get(&b"kept".to_vec()), Some(b"payload".to_vec()));
    drop(c);
}
