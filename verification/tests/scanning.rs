use ble_bridge::{
    begin_scan, collect_services, get_is_scanning, handle_scan_event, service_filter, set_is_scanning,
    DeviceRegistry, Peripheral, ScanAction, ScanEvent, ScanFlag, ScanSession, MAX_SCAN_TICKS,
    STALE_AFTER_SECS,
};

#[test]
fn flag_reads_back_what_was_set() {
    let mut f = ScanFlag::new();
    assert!(!get_is_scanning(&f));
    set_is_scanning(&mut f, true);
    assert!(get_is_scanning(&f));
    set_is_scanning(&mut f, false);
    assert!(!get_is_scanning(&f));
}

#[test]
fn service_filter_parses_uuids() {
    let filter = vec![
        "a1a2a3a4-b1b2-c1c2-d1d2-d3d4d5d6d7d8".to_string(),
        "0000180d00001000800000805f9b34fb".to_string(),
    ];
    let services = service_filter(&filter).unwrap();
    assert_eq!(services, vec![0xa1a2a3a4b1b2c1c2d1d2d3d4d5d6d7d8u128, 0x0000180d00001000800000805f9b34fbu128]);
    assert_eq!(service_filter(&vec![]), Some(vec![]));
    assert_eq!(service_filter(&vec!["not-a-uuid".to_string()]), None);
    assert_eq!(
        service_filter(&vec!["a1a2a3a4-b1b2-c1c2-d1d2-d3d4d5d6d7d8".to_string(), "zz".to_string()]),
        None
    );
}

#[test]
fn collect_services_needs_every_entry() {
    assert_eq!(collect_services(vec![Some(1), Some(2)]), Some(vec![1, 2]));
    assert_eq!(collect_services(vec![Some(1), None]), None);
    assert_eq!(collect_services(vec![]), Some(vec![]));
}

#[test]
fn begin_scan_sets_the_flag() {
    let mut f = ScanFlag::new();
    let session = begin_scan(&mut f, &vec!["a1a2a3a4-b1b2-c1c2-d1d2-d3d4d5d6d7d8".to_string()]).unwrap();
    assert!(get_is_scanning(&f));
    assert_eq!(session.ticks(), 0);
    assert_eq!(session.services(), &vec![0xa1a2a3a4b1b2c1c2d1d2d3d4d5d6d7d8u128]);
    let mut g = ScanFlag::new();
    assert!(begin_scan(&mut g, &vec!["bad".to_string()]).is_none());
    assert!(get_is_scanning(&g));
}

#[test]
fn scan_stops_itself_on_the_eleventh_tick() {
    let mut s = ScanSession::new(vec![]);
    let mut f = ScanFlag::new();
    let mut d: DeviceRegistry<u8> = DeviceRegistry::new();
    set_is_scanning(&mut f, true);
    for _ in 0..MAX_SCAN_TICKS {
        assert!(matches!(handle_scan_event(&mut s, &mut f, &mut d, ScanEvent::Tick, 0), ScanAction::Continue));
        assert!(get_is_scanning(&f));
    }
    assert_eq!(s.ticks(), 10);
    handle_scan_event(&mut s, &mut f, &mut d, ScanEvent::Tick, 0);
    assert_eq!(s.ticks(), 11);
    assert!(!get_is_scanning(&f));
}

fn reported(action: ScanAction) -> Vec<String> {
    match action {
        ScanAction::ReportDevices { ids } => ids,
        ScanAction::Continue => panic!("expected a report"),
    }
}

#[test]
fn discovered_devices_are_stored_and_reported() {
    let mut s = ScanSession::new(vec![]);
    let mut f = ScanFlag::new();
    set_is_scanning(&mut f, true);
    let mut d: DeviceRegistry<u8> = DeviceRegistry::new();
    let action = handle_scan_event(
        &mut s,
        &mut f,
        &mut d,
        ScanEvent::DeviceDiscovered { id: "X".to_string(), peripheral: 4, services: vec![7] },
        1234,
    );
    assert_eq!(reported(action), vec!["X".to_string()]);
    let p = d.get(&"X".to_string()).unwrap();
    assert_eq!((p.handle, p.is_connected, p.last_seen), (4, false, 1234));
    assert_eq!(p.services, vec![7]);
    assert_eq!(s.ticks(), 0);
    assert!(get_is_scanning(&f));
}

#[test]
fn reports_hold_only_devices_that_pass_the_filter() {
    let mut s = ScanSession::new(vec![0x180d]);
    let mut f = ScanFlag::new();
    let mut d: DeviceRegistry<u8> = DeviceRegistry::new();
    // a device kept from an earlier scan that does not pass this filter
    d.insert("earlier".to_string(), Peripheral::new(1, 0, vec![0x1800]));
    let a = handle_scan_event(
        &mut s,
        &mut f,
        &mut d,
        ScanEvent::DeviceDiscovered { id: "hr".to_string(), peripheral: 2, services: vec![0x180d] },
        10,
    );
    assert_eq!(reported(a), vec!["hr".to_string()]);
    let b = handle_scan_event(
        &mut s,
        &mut f,
        &mut d,
        ScanEvent::DeviceDiscovered { id: "other".to_string(), peripheral: 3, services: vec![] },
        20,
    );
    assert_eq!(reported(b), vec!["hr".to_string()]);
    handle_scan_event(
        &mut s,
        &mut f,
        &mut d,
        ScanEvent::ServicesAdvertisement { id: "other".to_string(), services: vec![0x180d] },
        30,
    );
    let c = handle_scan_event(
        &mut s,
        &mut f,
        &mut d,
        ScanEvent::DeviceDiscovered { id: "third".to_string(), peripheral: 4, services: vec![] },
        40,
    );
    // "other" has since advertised the filtered service
    assert_eq!(reported(c), vec!["hr".to_string(), "other".to_string()]);
    assert_eq!(d.len(), 4);
}

#[test]
fn updates_and_connection_events() {
    let mut s = ScanSession::new(vec![]);
    let mut f = ScanFlag::new();
    let mut d: DeviceRegistry<u8> = DeviceRegistry::new();
    d.insert("X".to_string(), Peripheral::new(1, 0, vec![]));
    let a = handle_scan_event(&mut s, &mut f, &mut d, ScanEvent::DeviceUpdated { id: "X".to_string() }, 777);
    assert!(matches!(a, ScanAction::Continue));
    assert_eq!(d.get(&"X".to_string()).unwrap().last_seen, 777);
    handle_scan_event(&mut s, &mut f, &mut d, ScanEvent::DeviceConnected { id: "X".to_string() }, 800);
    assert!(d.get(&"X".to_string()).unwrap().is_connected);
    assert_eq!(d.get(&"X".to_string()).unwrap().last_seen, 777);
    handle_scan_event(&mut s, &mut f, &mut d, ScanEvent::DeviceDisconnected { id: "X".to_string() }, 900);
    assert!(!d.get(&"X".to_string()).unwrap().is_connected);
    handle_scan_event(&mut s, &mut f, &mut d, ScanEvent::DeviceConnected { id: "Y".to_string() }, 900);
    assert_eq!(d.len(), 1);
    handle_scan_event(&mut s, &mut f, &mut d, ScanEvent::ServicesAdvertisement { id: "X".to_string(), services: vec![5] }, 900);
    assert_eq!(d.get(&"X".to_string()).unwrap().services, vec![5]);
    handle_scan_event(&mut s, &mut f, &mut d, ScanEvent::ManufacturerDataAdvertisement, 900);
    handle_scan_event(&mut s, &mut f, &mut d, ScanEvent::ServiceDataAdvertisement, 900);
    assert_eq!(d.len(), 1);
    assert_eq!(s.ticks(), 0);
}

#[test]
fn ticks_sweep_stale_devices() {
    let mut s = ScanSession::new(vec![]);
    let mut f = ScanFlag::new();
    let mut d: DeviceRegistry<u8> = DeviceRegistry::new();
    d.insert("old".to_string(), Peripheral::new(1, 0, vec![]));
    d.insert("new".to_string(), Peripheral::new(2, 20_000, vec![]));
    handle_scan_event(&mut s, &mut f, &mut d, ScanEvent::Tick, STALE_AFTER_SECS * 1000 + 1);
    assert!(d.get(&"old".to_string()).is_none());
    assert!(d.get(&"new".to_string()).is_some());
}
