use ble_bridge::{BleError, DeviceRegistry, Peripheral};

fn ids(r: &DeviceRegistry<u32>) -> Vec<String> {
    r.entries().iter().map(|(id, _)| id.clone()).collect()
}

#[test]
fn insert_then_get_gives_the_peripheral_back() {
    let mut r: DeviceRegistry<u32> = DeviceRegistry::new();
    assert_eq!(r.len(), 0);
    assert!(r.insert("A".to_string(), Peripheral::new(1, 500, vec![])).is_none());
    assert!(r.insert("B".to_string(), Peripheral::new(2, 600, vec![])).is_none());
    let a = r.get(&"A".to_string()).unwrap();
    assert_eq!(a.handle, 1);
    assert_eq!(a.last_seen, 500);
    assert!(!a.is_connected());
    assert!(r.get(&"C".to_string()).is_none());
    assert!(r.contains_id(&"B".to_string()));
    assert!(!r.contains_id(&"C".to_string()));
    assert_eq!(ids(&r), vec!["A".to_string(), "B".to_string()]);
}

#[test]
fn insert_replaces_in_place() {
    let mut r: DeviceRegistry<u32> = DeviceRegistry::new();
    r.insert("A".to_string(), Peripheral::new(1, 0, vec![]));
    r.insert("B".to_string(), Peripheral::new(2, 0, vec![]));
    let mut connected = Peripheral::new(3, 10, vec![]);
    connected.is_connected = true;
    let previous = r.insert("A".to_string(), connected).unwrap();
    assert_eq!(previous.handle, 1);
    assert_eq!(r.len(), 2);
    assert_eq!(ids(&r), vec!["A".to_string(), "B".to_string()]);
    assert_eq!(r.get(&"A".to_string()).unwrap().handle, 3);
    assert!(r.get(&"A".to_string()).unwrap().is_connected());
}

#[test]
fn touch_and_connection_state() {
    let mut r: DeviceRegistry<u32> = DeviceRegistry::new();
    r.insert("A".to_string(), Peripheral::new(1, 0, vec![]));
    assert!(r.touch(&"A".to_string(), 4000));
    assert_eq!(r.get(&"A".to_string()).unwrap().last_seen, 4000);
    assert!(!r.touch(&"Z".to_string(), 4000));
    assert!(r.set_connected(&"A".to_string(), true));
    assert!(r.get(&"A".to_string()).unwrap().is_connected);
    assert!(r.set_connected(&"A".to_string(), false));
    assert!(!r.get(&"A".to_string()).unwrap().is_connected);
    assert!(!r.set_connected(&"Z".to_string(), true));
    assert_eq!(r.len(), 1);
}

#[test]
fn lookup_for_connection() {
    let mut r: DeviceRegistry<u32> = DeviceRegistry::new();
    r.insert("A".to_string(), Peripheral::new(7, 0, vec![]));
    assert_eq!(r.lookup_peripheral(&"A".to_string()).unwrap().handle, 7);
    assert_eq!(r.lookup_peripheral(&"B".to_string()).err(), Some(BleError::UnknownPeripheral));
}

#[test]
fn sweep_drops_every_device_unheard_for_longer_than_the_timeout() {
    let mut r: DeviceRegistry<u32> = DeviceRegistry::new();
    // unheard for 40 s, connected: dropped all the same
    let mut c = Peripheral::new(1, 0, vec![]);
    c.is_connected = true;
    r.insert("conn".to_string(), c);
    // unheard for 40 s: dropped
    r.insert("old".to_string(), Peripheral::new(2, 0, vec![]));
    // unheard for 29.999 s: kept
    r.insert("recent".to_string(), Peripheral::new(3, 10_001, vec![]));
    // unheard for exactly 30 s, not longer: kept
    r.insert("edge".to_string(), Peripheral::new(4, 10_000, vec![]));
    // unheard for 30.001 s: dropped
    r.insert("past_edge".to_string(), Peripheral::new(5, 9_999, vec![]));
    // clock reading before last-seen: elapsed counts as zero, kept
    r.insert("future".to_string(), Peripheral::new(6, 90_000, vec![]));
    r.remove_stale_devices(40_000, 30);
    assert_eq!(ids(&r), vec!["recent".to_string(), "edge".to_string(), "future".to_string()]);
    r.remove_stale_devices(40_000, 30);
    assert_eq!(ids(&r), vec!["recent".to_string(), "edge".to_string(), "future".to_string()]);
}

#[test]
fn sweep_with_zero_timeout_keeps_only_devices_heard_now() {
    let mut r: DeviceRegistry<u32> = DeviceRegistry::new();
    r.insert("a".to_string(), Peripheral::new(1, 5, vec![]));
    let mut c = Peripheral::new(2, 4, vec![]);
    c.is_connected = true;
    r.insert("b".to_string(), c);
    r.remove_stale_devices(5, 0);
    assert_eq!(ids(&r), vec!["a".to_string()]);
}

#[test]
fn services_and_filter_matching() {
    let mut r: DeviceRegistry<u32> = DeviceRegistry::new();
    r.insert("a".to_string(), Peripheral::new(1, 0, vec![10, 20]));
    r.insert("b".to_string(), Peripheral::new(2, 0, vec![30]));
    r.insert("c".to_string(), Peripheral::new(3, 0, vec![]));
    assert_eq!(r.matching_ids(&vec![]), vec!["a".to_string(), "b".to_string(), "c".to_string()]);
    assert_eq!(r.matching_ids(&vec![20]), vec!["a".to_string()]);
    assert_eq!(r.matching_ids(&vec![30, 10]), vec!["a".to_string(), "b".to_string()]);
    assert_eq!(r.matching_ids(&vec![99]), Vec::<String>::new());
    assert!(r.set_services(&"c".to_string(), vec![99]));
    assert_eq!(r.get(&"c".to_string()).unwrap().services, vec![99]);
    assert_eq!(r.matching_ids(&vec![99]), vec!["c".to_string()]);
    assert!(!r.set_services(&"z".to_string(), vec![1]));
}
