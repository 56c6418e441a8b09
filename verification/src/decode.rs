//! The payload decoder: fixed-offset fields of a vendor broadcast payload.
//!
//! A payload is a byte sequence of at least [`MIN_PAYLOAD_LEN`] bytes.
//! Bytes 1..4 hold a packed 24-bit big-endian integer whose value divided by
//! 10_000 is the temperature and whose three low decimal digits are the
//! humidity in tenths of a percent; byte 4 is the battery level in tenths of
//! a percent; bytes 5..11 are the MAC, reported as lowercase hex.

use vstd::prelude::*;

verus! {

/// A payload must carry at least this many bytes for every field to be
/// decodable: the decoder reads bytes 1..4, byte 4 and bytes 5..11.
pub const MIN_PAYLOAD_LEN: usize = 11;

/// The lowercase hexadecimal digit character for a digit value below 16.
pub open spec fn hex_digit_char(d: nat) -> char
    recommends
        d < 16,
{
    if d < 10 {
        ((0x30 + d) as u8) as char
    } else {
        ((0x57 + d) as u8) as char
    }
}

/// Is `c` a lowercase hexadecimal digit character?
pub open spec fn is_hex_digit_char(c: char) -> bool {
    ('0' <= c && c <= '9') || ('a' <= c && c <= 'f')
}

/// Lowercase hexadecimal rendering of a byte sequence: two digits per byte,
/// most significant digit first, no separators.
pub open spec fn spec_hex(s: Seq<u8>) -> Seq<char> {
    Seq::new(2 * s.len(), |i: int| if i % 2 == 0 {
        hex_digit_char((s[i / 2] / 16) as nat)
    } else {
        hex_digit_char((s[i / 2] % 16) as nat)
    })
}

/// Relies on hex::encode: every input byte becomes exactly two lowercase
/// hexadecimal digits, most significant digit first, in input order.
#[verifier::external_body]
fn hex_encode(bytes: &[u8]) -> (r: String)
    ensures
        r@ == spec_hex(bytes@),
{
    hex::encode(bytes)
}

/// Every character of a hexadecimal rendering is a lowercase hex digit.
pub proof fn lemma_spec_hex_digits(s: Seq<u8>)
    ensures
        forall|i: int| 0 <= i < spec_hex(s).len() ==> is_hex_digit_char(#[trigger] spec_hex(s)[i]),
{
    assert forall|i: int| 0 <= i < spec_hex(s).len() implies is_hex_digit_char(
        #[trigger] spec_hex(s)[i],
    ) by {
        let b = s[i / 2];
        assert(b / 16 < 16) by (nonlinear_arith);
        assert(b % 16 < 16) by (nonlinear_arith);
    }
}

/// The packed temperature integer at bytes 1..4, big endian. The temperature
/// in degrees is this value divided by 10_000; its three low decimal digits
/// double as the humidity reading.
pub open spec fn spec_temp_raw(data: Seq<u8>) -> nat
    recommends
        data.len() >= 4,
{
    (data[1] as nat) * 0x1_0000 + (data[2] as nat) * 0x100 + (data[3] as nat)
}

/// The battery level in tenths of a percent: byte 4.
pub open spec fn spec_battery_raw(data: Seq<u8>) -> nat
    recommends
        data.len() >= 5,
{
    data[4] as nat
}

/// The humidity in tenths of a percent: the three low decimal digits of the
/// packed temperature integer.
pub open spec fn spec_humidity_raw(data: Seq<u8>) -> nat
    recommends
        data.len() >= 4,
{
    spec_temp_raw(data) % 1000
}

/// The MAC field: bytes 5..11 of a payload, rendered as lowercase hex.
pub open spec fn spec_mac(data: Seq<u8>) -> Seq<char>
    recommends
        data.len() >= 11,
{
    spec_hex(data.subrange(5, 11))
}

/// Decode the packed temperature integer from bytes 1..4.
pub fn get_temp_raw(data: &[u8]) -> (r: u32)
    requires
        data@.len() >= 4,
    ensures
        r == spec_temp_raw(data@),
        r < 0x100_0000,
{
    (data[1] as u32) * 0x1_0000 + (data[2] as u32) * 0x100 + (data[3] as u32)
}

/// Decode the battery level (tenths of a percent) from byte 4.
pub fn get_battery_raw(data: &[u8]) -> (r: u8)
    requires
        data@.len() >= 5,
    ensures
        r == spec_battery_raw(data@),
{
    data[4]
}

/// Decode the humidity (tenths of a percent) from the packed integer.
pub fn get_humidity_raw(data: &[u8]) -> (r: u32)
    requires
        data@.len() >= 4,
    ensures
        r == spec_humidity_raw(data@),
        r < 1000,
{
    get_temp_raw(data) % 1000
}

/// Decode the MAC field: bytes 5..11, hex-encoded, lowercase, twelve
/// characters.
pub fn get_mac(data: &[u8]) -> (r: String)
    requires
        data@.len() >= MIN_PAYLOAD_LEN,
    ensures
        r@ == spec_mac(data@),
        r@.len() == 12,
        forall|i: int| 0 <= i < 12 ==> is_hex_digit_char(#[trigger] r@[i]),
{
    let sub: &[u8] = &data[5..11];
    proof {
        lemma_spec_hex_digits(sub@);
    }
    hex_encode(sub)
}

} // verus!
