//! The reading builder: a decoded payload plus the broadcasting device's id
//! and the wall-clock time, combined into one immutable reading record.

use vstd::prelude::*;
use crate::decode::{
    MIN_PAYLOAD_LEN, get_battery_raw, get_humidity_raw, get_mac, get_temp_raw, is_hex_digit_char,
    spec_battery_raw, spec_humidity_raw, spec_mac, spec_temp_raw,
};

verus! {

/// One decoded sensor broadcast, created once per accepted event.
///
/// The numeric fields are fixed-point integers: `temperature_raw` is the
/// packed integer from bytes 1..4, i.e. ten-thousandths of a degree;
/// `humidity_raw` and `battery_raw` are tenths of a percent. `timestamp` is
/// wall-clock seconds at decode time; it is not taken from the payload.
#[derive(Debug, Clone)]
pub struct SensorReading {
    pub id: String,
    pub temperature_raw: u32,
    pub battery_raw: u8,
    pub humidity_raw: u32,
    pub timestamp: u64,
    pub mac: String,
}

/// `r` holds exactly the fields decoded from `data` for device `id`; the
/// timestamp is left unconstrained, as it does not come from the payload.
pub open spec fn decodes_to(id: Seq<char>, data: Seq<u8>, r: SensorReading) -> bool
    recommends
        data.len() >= MIN_PAYLOAD_LEN,
{
    &&& r.id@ == id
    &&& r.temperature_raw == spec_temp_raw(data)
    &&& r.battery_raw == spec_battery_raw(data)
    &&& r.humidity_raw == spec_humidity_raw(data)
    &&& r.mac@ == spec_mac(data)
}

impl SensorReading {
    /// Internal consistency of a reading: the packed integer fits in 24
    /// bits, the humidity is its three low decimal digits (the two fields
    /// can never be independently wrong), and the MAC is exactly twelve
    /// lowercase hexadecimal characters.
    pub open spec fn well_formed(self) -> bool {
        &&& self.temperature_raw < 0x100_0000
        &&& self.humidity_raw == self.temperature_raw % 1000
        &&& self.mac@.len() == 12
        &&& forall|i: int| 0 <= i < 12 ==> is_hex_digit_char(#[trigger] self.mac@[i])
    }

    /// Build a reading from a device id and a payload of at least
    /// [`MIN_PAYLOAD_LEN`] bytes. Decoding such a payload always succeeds;
    /// only the timestamp, read from the wall clock here, varies between
    /// calls on the same input.
    pub fn from_data(id: &str, data: &[u8]) -> (r: Option<SensorReading>)
        requires
            data@.len() >= MIN_PAYLOAD_LEN,
        ensures
            r is Some,
            decodes_to(id@, data@, r->0),
            r->0.well_formed(),
    {
        Some(
            SensorReading {
                id: id.to_owned(),
                temperature_raw: get_temp_raw(data),
                battery_raw: get_battery_raw(data),
                humidity_raw: get_humidity_raw(data),
                timestamp: get_timestamp(),
                mac: get_mac(data),
            },
        )
    }
}

/// Relies on std::time::SystemTime: `now` and its `duration_since` distance
/// from `UNIX_EPOCH` give the wall-clock seconds since the epoch, or 0 if
/// the clock reads earlier than the epoch. Nothing is promised of the
/// value; callers treat it as arbitrary.
#[verifier::external_body]
fn system_time_secs() -> u64 {
    match std::time::SystemTime::now().duration_since(std::time::UNIX_EPOCH) {
        Ok(d) => d.as_secs(),
        Err(_) => 0,
    }
}

/// The current wall-clock time in seconds since the epoch. The value comes
/// from the machine's clock, so nothing can be stated of it; every reading
/// is well formed whatever second count it carries.
pub fn get_timestamp() -> u64 {
    system_time_secs()
}

/// Decoding is a pure function of its input bytes: two readings decoded
/// from the same id and payload agree on every field except the timestamp.
pub proof fn lemma_decode_deterministic(
    id: Seq<char>,
    data: Seq<u8>,
    r1: SensorReading,
    r2: SensorReading,
)
    requires
        decodes_to(id, data, r1),
        decodes_to(id, data, r2),
    ensures
        r1.id@ == r2.id@,
        r1.temperature_raw == r2.temperature_raw,
        r1.battery_raw == r2.battery_raw,
        r1.humidity_raw == r2.humidity_raw,
        r1.mac@ == r2.mac@,
{
}

} // verus!
