use thermoscan::envelope::{auth_header, build_envelope, dec_string, deci_string, escape_json, nanos_string, reading_json, temp_string};
use thermoscan::filter::{Event, ManufacturerData, VENDOR_KEY, handle_event};
use thermoscan::reading::SensorReading;

fn sample_reading() -> SensorReading {
    SensorReading {
        id: String::from("1234"),
        temperature_raw: 681215,
        battery_raw: 100,
        humidity_raw: 215,
        timestamp: 1234,
        mac: String::from("640000000000"),
    }
}

#[test]
fn decimal_rendering() {
    assert_eq!(dec_string(0), "0");
    assert_eq!(dec_string(7), "7");
    assert_eq!(dec_string(681215), "681215");
    assert_eq!(dec_string(u64::MAX), "18446744073709551615");
}

#[test]
fn tenths_rendering() {
    assert_eq!(deci_string(0), "0.0");
    assert_eq!(deci_string(100), "10.0");
    assert_eq!(deci_string(215), "21.5");
    assert_eq!(deci_string(255), "25.5");
    assert_eq!(deci_string(9), "0.9");
}

#[test]
fn ten_thousandths_rendering() {
    assert_eq!(temp_string(681215), "68.1215");
    assert_eq!(temp_string(681200), "68.12");
    assert_eq!(temp_string(681000), "68.1");
    assert_eq!(temp_string(680000), "68.0");
    assert_eq!(temp_string(5), "0.0005");
    assert_eq!(temp_string(0), "0.0");
}

#[test]
fn nanosecond_timestamp_rendering() {
    assert_eq!(nanos_string(0), "0");
    assert_eq!(nanos_string(1234), "1234000000000");
    assert_eq!(nanos_string(u64::MAX), "18446744073709551615000000000");
}

#[test]
fn json_escaping() {
    assert_eq!(escape_json("plain"), "plain");
    assert_eq!(escape_json("a\"b\\c"), "a\\\"b\\\\c");
    assert_eq!(escape_json("\n\r\t\u{8}\u{c}"), "\\n\\r\\t\\b\\f");
    assert_eq!(escape_json("\u{1}\u{1f}"), "\\u0001\\u001f");
    assert_eq!(escape_json("é€"), "\\u00e9\\u20ac");
    assert_eq!(escape_json("😀"), "\\ud83d\\ude00");
}

#[test]
fn inner_entry_json() {
    let json = reading_json(&sample_reading());
    assert_eq!(
        json,
        "{\"id\":\"1234\",\"temperature\":68.1215,\"battery\":10.0,\"humidity\":21.5,\"mac\":\"640000000000\"}"
    );
    // The timestamp stands only in the envelope, never in the entry.
    assert!(!json.contains("timestamp"));
}

#[test]
fn envelope_shape() {
    let body = build_envelope(&sample_reading(), "myhouse");
    let v: serde_json::Value = serde_json::from_str(&body).unwrap();
    assert_eq!(v["streams"][0]["stream"]["house"].as_str().unwrap(), "myhouse");
    let line = &v["streams"][0]["values"][0];
    assert_eq!(line[0].as_str().unwrap(), "1234000000000");
    let inner: serde_json::Value = serde_json::from_str(line[1].as_str().unwrap()).unwrap();
    assert_eq!(inner["id"].as_str().unwrap(), "1234");
    assert_eq!(inner["temperature"].as_f64().unwrap(), 68.1215);
    assert_eq!(inner["battery"].as_f64().unwrap(), 10.0);
    assert_eq!(inner["humidity"].as_f64().unwrap(), 21.5);
    assert_eq!(inner["mac"].as_str().unwrap(), "640000000000");
}

#[test]
fn end_to_end_event_to_envelope() {
    let mut md = ManufacturerData::new();
    md.insert(1, vec![0, 10, 100, 255, 100, 100, 0, 0, 0, 0, 0, 0, 0]);
    md.insert(VENDOR_KEY, vec![0, 0, 0, 0, 0, 0x45, 0x4c, 0x4c, 0x49, 0x5f, 0x52]);
    let event = Event::ManufacturerDataAdvertisement {
        id: String::from("dev-1"),
        manufacturer_data: md,
    };
    let reading = handle_event(&event).unwrap();
    let inner = reading_json(&reading);
    assert!(inner.contains(
        "\"temperature\":68.1215,\"battery\":10.0,\"humidity\":21.5,\"mac\":\"640000000000\""
    ));
    let body = build_envelope(&reading, "myhouse");
    let v: serde_json::Value = serde_json::from_str(&body).unwrap();
    let line = &v["streams"][0]["values"][0];
    assert_eq!(line[1].as_str().unwrap(), inner);
}

#[test]
fn authorization_header_value() {
    assert_eq!(auth_header("tok123"), "Basic tok123");
    assert_eq!(auth_header(""), "Basic ");
}
