use thermoscan::decode::{get_battery_raw, get_humidity_raw, get_mac, get_temp_raw};
use thermoscan::reading::SensorReading;

#[test]
fn test_get_mac() {
    let data = vec![
        0, 10, 100, 255, 100, 100, // mac
        0, 0, 0, 0, 0, 0, 0,
    ];
    let mac = get_mac(&data);
    assert_eq!(mac, "640000000000");
}

#[test]
fn test_get_temp() {
    let mac_data = vec![0, 10, 100, 255];
    let temp = get_temp_raw(&mac_data) as f32 / 10_000.0;
    assert_eq!(temp, 68.1215);
}

#[test]
fn test_get_humidity() {
    let mac_data = vec![0, 10, 100, 255];
    let humidity = get_humidity_raw(&mac_data) as f32 / 10.0;
    assert_eq!(humidity, 21.5);
}

#[test]
fn test_get_battery() {
    let mac_data = vec![0, 0, 0, 0, 100, 100];
    let battery = get_battery_raw(&mac_data) as f32 / 10.0;
    assert_eq!(battery, 10.0);
}

#[test]
fn test_from_manufacturer_data() {
    let id = "1234";
    let data = vec![
        0, 10, 100, 255, 100, 100, // mac
        0, 0, 0, 0, 0, 0, 0,
    ];
    let sensor_reading = SensorReading::from_data(id, &data).unwrap();
    assert_eq!(sensor_reading.id, "1234");
    assert_eq!(sensor_reading.temperature_raw as f32 / 10_000.0, 68.1215);
    assert_eq!(sensor_reading.battery_raw as f32 / 10.0, 10.0);
    assert_eq!(sensor_reading.humidity_raw as f32 / 10.0, 21.5);
    assert_eq!(sensor_reading.mac, "640000000000");
}

#[test]
fn decode_is_pure_on_same_bytes() {
    let data = vec![7, 1, 2, 3, 55, 1, 2, 3, 4, 5, 6, 9];
    let r1 = SensorReading::from_data("dev", &data).unwrap();
    let r2 = SensorReading::from_data("dev", &data).unwrap();
    assert_eq!(r1.id, r2.id);
    assert_eq!(r1.temperature_raw, r2.temperature_raw);
    assert_eq!(r1.battery_raw, r2.battery_raw);
    assert_eq!(r1.humidity_raw, r2.humidity_raw);
    assert_eq!(r1.mac, r2.mac);
}

#[test]
fn humidity_is_low_digits_of_temperature() {
    let data = vec![0, 10, 100, 255, 100, 0, 0, 0, 0, 0, 0];
    let raw = get_temp_raw(&data);
    assert_eq!(raw, 681215);
    assert_eq!(get_humidity_raw(&data), raw % 1000);
}

#[test]
fn mac_uses_exactly_bytes_5_to_11() {
    // Same MAC bytes under different surrounding bytes.
    let a = vec![9, 9, 9, 9, 9, 0xde, 0xad, 0xbe, 0xef, 0x01, 0x23, 7, 7];
    let b = vec![0, 1, 2, 3, 4, 0xde, 0xad, 0xbe, 0xef, 0x01, 0x23];
    assert_eq!(get_mac(&a), "deadbeef0123");
    assert_eq!(get_mac(&a), get_mac(&b));
}

#[test]
fn timestamp_is_non_decreasing() {
    let t1 = thermoscan::reading::get_timestamp();
    let t2 = thermoscan::reading::get_timestamp();
    assert!(t1 <= t2);
}
