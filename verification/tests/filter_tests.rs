use thermoscan::filter::{Event, FilterOutcome, ManufacturerData, VENDOR_KEY, filter_event, handle_event};

fn sentinel_payload() -> Vec<u8> {
    // Bytes 5..11 hex-encode to the vendor sentinel "454c4c495f52".
    vec![0, 0, 0, 0, 0, 0x45, 0x4c, 0x4c, 0x49, 0x5f, 0x52]
}

fn sensor_payload() -> Vec<u8> {
    vec![0, 10, 100, 255, 100, 100, 0, 0, 0, 0, 0, 0, 0]
}

fn advert(entries: Vec<(u16, Vec<u8>)>) -> Event {
    let mut md = ManufacturerData::new();
    for (k, v) in entries {
        md.insert(k, v);
    }
    Event::ManufacturerDataAdvertisement { id: String::from("dev-1"), manufacturer_data: md }
}

#[test]
fn rejects_every_other_event_variant() {
    let id = String::from("x");
    let events = vec![
        Event::DeviceDiscovered { id: id.clone() },
        Event::DeviceUpdated { id: id.clone() },
        Event::DeviceConnected { id: id.clone() },
        Event::DeviceDisconnected { id: id.clone() },
        Event::ServiceDataAdvertisement { id: id.clone() },
        Event::ServicesAdvertisement { id: id.clone() },
        Event::StateUpdate,
    ];
    for e in events {
        assert!(matches!(filter_event(&e), FilterOutcome::WrongVariant));
        assert!(handle_event(&e).is_none());
    }
}

#[test]
fn rejects_when_vendor_key_missing() {
    let e = advert(vec![(1, sensor_payload())]);
    assert!(matches!(filter_event(&e), FilterOutcome::VendorKeyMissing));
    assert!(handle_event(&e).is_none());
}

#[test]
fn rejects_empty_mapping() {
    let e = advert(vec![]);
    assert!(matches!(filter_event(&e), FilterOutcome::VendorKeyMissing));
    assert!(handle_event(&e).is_none());
}

#[test]
fn rejects_when_sentinel_differs() {
    let mut bad = sentinel_payload();
    bad[10] = 0x53;
    let e = advert(vec![(1, sensor_payload()), (VENDOR_KEY, bad)]);
    assert!(matches!(filter_event(&e), FilterOutcome::MagicMismatch));
    assert!(handle_event(&e).is_none());
}

#[test]
fn rejects_when_vendor_entry_too_short() {
    let e = advert(vec![(1, sensor_payload()), (VENDOR_KEY, vec![0x45, 0x4c])]);
    assert!(matches!(filter_event(&e), FilterOutcome::MagicMismatch));
    assert!(handle_event(&e).is_none());
}

#[test]
fn rejects_when_first_payload_too_short() {
    let e = advert(vec![(1, vec![0, 10, 100]), (VENDOR_KEY, sentinel_payload())]);
    assert!(matches!(filter_event(&e), FilterOutcome::PayloadTooShort));
    assert!(handle_event(&e).is_none());
}

#[test]
fn accepts_vendor_broadcast_and_decodes_first_entry() {
    let e = advert(vec![(1, sensor_payload()), (VENDOR_KEY, sentinel_payload())]);
    match filter_event(&e) {
        FilterOutcome::Accepted { id, payload } => {
            assert_eq!(id, "dev-1");
            assert_eq!(payload, sensor_payload());
        },
        _ => panic!("expected acceptance"),
    }
    let reading = handle_event(&e).unwrap();
    assert_eq!(reading.id, "dev-1");
    assert_eq!(reading.temperature_raw, 681215);
    assert_eq!(reading.battery_raw, 100);
    assert_eq!(reading.humidity_raw, 215);
    assert_eq!(reading.mac, "640000000000");
}

#[test]
fn vendor_entry_itself_can_be_the_first_entry() {
    // With no smaller key, the vendor entry is also the candidate payload.
    let e = advert(vec![(VENDOR_KEY, sentinel_payload())]);
    let reading = handle_event(&e).unwrap();
    assert_eq!(reading.mac, "454c4c495f52");
}

#[test]
fn mapping_insert_replaces_and_keeps_order() {
    let mut md = ManufacturerData::new();
    md.insert(VENDOR_KEY, vec![1, 2, 3]);
    md.insert(7, vec![9]);
    md.insert(VENDOR_KEY, sentinel_payload());
    assert_eq!(md.len(), 2);
    assert_eq!(md.get(VENDOR_KEY).unwrap(), &sentinel_payload());
    assert_eq!(md.get(7).unwrap(), &vec![9u8]);
    assert!(md.get(8).is_none());
    // Entry under the smallest key comes first, whatever the insert order.
    let first = md.first_entry().unwrap();
    assert_eq!(first.0, 7);
    assert_eq!(first.1, vec![9u8]);
}
