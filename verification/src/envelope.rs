//! The log shipper's pure half: rendering one reading as the sink's JSON
//! wire envelope and the request's authorization header value.
//!
//! The envelope holds one stream with one value line: the line's timestamp
//! is the reading's wall-clock second count in nanoseconds, as a decimal
//! string, and the line's entry is the reading's fields as a JSON object,
//! itself embedded as a JSON string. The fixed-point fields are rendered in
//! decimal: tenths with one fractional digit, ten-thousandths with up to
//! four, trailing zeros dropped but one fractional digit always kept.

use vstd::prelude::*;
use crate::decode::hex_digit_char;
use crate::reading::SensorReading;

verus! {

/// Every byte is an ASCII code point.
pub open spec fn ascii_ok(s: Seq<u8>) -> bool {
    forall|i: int| 0 <= i < s.len() ==> s[i] < 128
}

/// The characters spelled by a sequence of ASCII bytes.
pub open spec fn ascii_chars(s: Seq<u8>) -> Seq<char> {
    Seq::new(s.len(), |i: int| s[i] as char)
}

/// Relies on String::from_utf8: bytes below 128 are valid UTF-8 and decode
/// to exactly one character per byte, the character of that code point.
#[verifier::external_body]
fn ascii_to_string(bytes: Vec<u8>) -> (r: String)
    requires
        ascii_ok(bytes@),
    ensures
        r@ == ascii_chars(bytes@),
{
    String::from_utf8(bytes).unwrap()
}

/// The decimal digit character for a digit value below 10.
pub open spec fn digit_char(d: nat) -> char
    recommends
        d < 10,
{
    ((0x30 + d) as u8) as char
}

/// The decimal rendering of a natural number: most significant digit
/// first, no sign, no leading zeros (a single `0` for zero).
pub open spec fn spec_dec(n: nat) -> Seq<char>
    decreases n,
{
    if n < 10 {
        seq![digit_char(n)]
    } else {
        spec_dec(n / 10).push(digit_char(n % 10))
    }
}

/// Append the decimal rendering of `n`.
fn push_dec(out: &mut Vec<u8>, n: u64)
    requires
        ascii_ok(old(out)@),
    ensures
        ascii_ok(final(out)@),
        ascii_chars(final(out)@) == ascii_chars(old(out)@) + spec_dec(n as nat),
    decreases n,
{
    if n >= 10 {
        push_dec(out, n / 10);
    }
    let ghost mid = out@;
    let d: u8 = 0x30 + (n % 10) as u8;
    out.push(d);
    proof {
        assert(ascii_ok(out@));
        assert(ascii_chars(out@) =~= ascii_chars(mid).push(d as char));
        assert(d as char == digit_char((n % 10) as nat));
        if n < 10 {
            assert(spec_dec(n as nat) =~= seq![digit_char(n as nat)]);
            assert(ascii_chars(old(out)@) + spec_dec(n as nat) =~= ascii_chars(
                old(out)@,
            ).push(digit_char(n as nat)));
        } else {
            assert(spec_dec(n as nat) == spec_dec((n / 10) as nat).push(
                digit_char((n % 10) as nat),
            ));
            assert(ascii_chars(old(out)@) + spec_dec(n as nat) =~= (ascii_chars(old(out)@)
                + spec_dec((n / 10) as nat)).push(digit_char((n % 10) as nat)));
        }
    }
}

/// The decimal rendering of `n` as a string.
pub fn dec_string(n: u64) -> (r: String)
    ensures
        r@ == spec_dec(n as nat),
{
    let mut out: Vec<u8> = Vec::new();
    push_dec(&mut out, n);
    proof {
        assert(ascii_chars(out@) =~= spec_dec(n as nat));
    }
    ascii_to_string(out)
}

/// The decimal rendering of a count of tenths: the integer part, a point,
/// and exactly one fractional digit.
pub open spec fn spec_deci(v: nat) -> Seq<char> {
    spec_dec(v / 10) + seq!['.', digit_char(v % 10)]
}

/// Render a count of tenths, e.g. battery or humidity: `105` becomes
/// `10.5`, `100` becomes `10.0`.
pub fn deci_string(v: u64) -> (r: String)
    ensures
        r@ == spec_deci(v as nat),
{
    let mut out: Vec<u8> = Vec::new();
    push_dec(&mut out, v / 10);
    let ghost mid = out@;
    out.push(0x2e);
    let d: u8 = 0x30 + (v % 10) as u8;
    out.push(d);
    proof {
        assert(ascii_ok(out@));
        assert(0x2eu8 as char == '.');
        assert(d as char == digit_char((v % 10) as nat));
        assert(ascii_chars(out@) =~= ascii_chars(mid) + seq!['.', digit_char((v % 10) as nat)]);
        assert(ascii_chars(out@) =~= spec_deci(v as nat));
    }
    ascii_to_string(out)
}

/// Trailing `'0'` characters removed, but at least one character kept.
pub open spec fn spec_trim1(s: Seq<char>) -> Seq<char>
    decreases s.len(),
{
    if s.len() > 1 && s.last() == '0' {
        spec_trim1(s.drop_last())
    } else {
        s
    }
}

/// The four decimal digits of a fraction counted in ten-thousandths.
pub open spec fn spec_frac4(f: nat) -> Seq<char>
    recommends
        f < 10000,
{
    seq![
        digit_char((f / 1000) % 10),
        digit_char((f / 100) % 10),
        digit_char((f / 10) % 10),
        digit_char(f % 10),
    ]
}

/// The decimal rendering of a count of ten-thousandths: the integer part,
/// a point, and the four fractional digits with trailing zeros dropped but
/// at least one kept.
pub open spec fn spec_temp_str(v: nat) -> Seq<char> {
    spec_dec(v / 10000) + seq!['.'] + spec_trim1(spec_frac4(v % 10000))
}

/// Render a count of ten-thousandths, e.g. the packed temperature integer:
/// `681215` becomes `68.1215`, `681200` becomes `68.12`, `100000` becomes
/// `10.0`.
pub fn temp_string(v: u32) -> (r: String)
    ensures
        r@ == spec_temp_str(v as nat),
{
    let mut out: Vec<u8> = Vec::new();
    push_dec(&mut out, (v / 10000) as u64);
    let ghost mid = out@;
    out.push(0x2e);
    let f = v % 10000;
    let d3: u8 = 0x30 + ((f / 1000) % 10) as u8;
    let d2: u8 = 0x30 + ((f / 100) % 10) as u8;
    let d1: u8 = 0x30 + ((f / 10) % 10) as u8;
    let d0: u8 = 0x30 + (f % 10) as u8;
    out.push(d3);
    if d2 != 0x30 || d1 != 0x30 || d0 != 0x30 {
        out.push(d2);
    }
    if d1 != 0x30 || d0 != 0x30 {
        out.push(d1);
    }
    if d0 != 0x30 {
        out.push(d0);
    }
    proof {
        let fr = spec_frac4((v % 10000) as nat);
        assert(0x30u8 as char == '0');
        assert(d3 as char == fr[0] && d2 as char == fr[1] && d1 as char == fr[2] && d0 as char
            == fr[3]);
        assert(d3 as char == '0' <==> d3 == 0x30);
        assert(d2 as char == '0' <==> d2 == 0x30);
        assert(d1 as char == '0' <==> d1 == 0x30);
        assert(d0 as char == '0' <==> d0 == 0x30);
        if d0 != 0x30 {
            assert(spec_trim1(fr) =~= seq![fr[0], fr[1], fr[2], fr[3]]);
            assert(ascii_chars(out@) =~= ascii_chars(mid) + seq!['.'] + spec_trim1(fr));
        } else if d1 != 0x30 {
            let f3 = seq![fr[0], fr[1], fr[2]];
            assert(fr.drop_last() =~= f3);
            assert(spec_trim1(fr) == spec_trim1(f3));
            assert(f3.last() == fr[2] && fr[2] != '0');
            assert(spec_trim1(f3) == f3);
            assert(ascii_chars(out@) =~= ascii_chars(mid) + seq!['.'] + spec_trim1(fr));
        } else if d2 != 0x30 {
            let f3 = seq![fr[0], fr[1], fr[2]];
            let f2 = seq![fr[0], fr[1]];
            assert(fr.drop_last() =~= f3);
            assert(spec_trim1(fr) == spec_trim1(f3));
            assert(f3.last() == fr[2] && fr[2] == '0');
            assert(f3.drop_last() =~= f2);
            assert(spec_trim1(f3) == spec_trim1(f2));
            assert(f2.last() == fr[1] && fr[1] != '0');
            assert(spec_trim1(f2) == f2);
            assert(ascii_chars(out@) =~= ascii_chars(mid) + seq!['.'] + spec_trim1(fr));
        } else {
            let f3 = seq![fr[0], fr[1], fr[2]];
            let f2 = seq![fr[0], fr[1]];
            let f1 = seq![fr[0]];
            assert(fr.drop_last() =~= f3);
            assert(spec_trim1(fr) == spec_trim1(f3));
            assert(f3.last() == fr[2] && fr[2] == '0');
            assert(f3.drop_last() =~= f2);
            assert(spec_trim1(f3) == spec_trim1(f2));
            assert(f2.last() == fr[1] && fr[1] == '0');
            assert(f2.drop_last() =~= f1);
            assert(spec_trim1(f2) == spec_trim1(f1));
            assert(f1.len() == 1);
            assert(spec_trim1(f1) == f1);
            assert(ascii_chars(out@) =~= ascii_chars(mid) + seq!['.'] + spec_trim1(fr));
        }
        assert(ascii_ok(out@));
        assert(ascii_chars(out@) =~= spec_temp_str(v as nat));
    }
    ascii_to_string(out)
}

/// The four lowercase hex digit characters of a value below 0x10000.
pub open spec fn spec_hex4(n: nat) -> Seq<char>
    recommends
        n < 0x10000,
{
    seq![
        hex_digit_char((n / 0x1000) % 16),
        hex_digit_char((n / 0x100) % 16),
        hex_digit_char((n / 0x10) % 16),
        hex_digit_char(n % 16),
    ]
}

/// The JSON escape of one character: the two-character escapes of the JSON
/// grammar, `\u00xx` for the remaining control characters, the character
/// itself for other ASCII, and `\uxxxx` (a surrogate pair beyond the basic
/// plane) for everything else, so that the rendering is pure ASCII.
pub open spec fn spec_escape_char(c: char) -> Seq<char> {
    if c == '"' {
        seq!['\\', '"']
    } else if c == '\\' {
        seq!['\\', '\\']
    } else if c as u32 == 0x8 {
        seq!['\\', 'b']
    } else if c as u32 == 0xc {
        seq!['\\', 'f']
    } else if c == '\n' {
        seq!['\\', 'n']
    } else if c == '\r' {
        seq!['\\', 'r']
    } else if c == '\t' {
        seq!['\\', 't']
    } else if (c as u32) < 0x20 {
        seq!['\\', 'u', '0', '0'] + spec_hex4(c as u32 as nat).skip(2)
    } else if (c as u32) < 0x80 {
        seq![c]
    } else if (c as u32) < 0x10000 {
        seq!['\\', 'u'] + spec_hex4(c as u32 as nat)
    } else {
        seq!['\\', 'u'] + spec_hex4((0xd800 + ((c as u32 as nat) - 0x10000) / 0x400) as nat)
            + seq!['\\', 'u'] + spec_hex4((0xdc00 + ((c as u32 as nat) - 0x10000) % 0x400) as nat)
    }
}

/// The JSON escape of a string's characters.
pub open spec fn spec_escape(s: Seq<char>) -> Seq<char>
    decreases s.len(),
{
    if s.len() == 0 {
        Seq::empty()
    } else {
        spec_escape(s.drop_last()) + spec_escape_char(s.last())
    }
}

/// The ASCII byte of one lowercase hex digit.
fn hex_digit_byte(d: u8) -> (r: u8)
    requires
        d < 16,
    ensures
        r < 128,
        r as char == hex_digit_char(d as nat),
{
    if d < 10 {
        0x30 + d
    } else {
        0x57 + d
    }
}

/// Append the four hex digits of a value below 0x10000.
fn push_hex4(out: &mut Vec<u8>, n: u32)
    requires
        n < 0x10000,
        ascii_ok(old(out)@),
    ensures
        ascii_ok(final(out)@),
        ascii_chars(final(out)@) == ascii_chars(old(out)@) + spec_hex4(n as nat),
{
    let b3 = hex_digit_byte(((n / 0x1000) % 16) as u8);
    let b2 = hex_digit_byte(((n / 0x100) % 16) as u8);
    let b1 = hex_digit_byte(((n / 0x10) % 16) as u8);
    let b0 = hex_digit_byte((n % 16) as u8);
    out.push(b3);
    out.push(b2);
    out.push(b1);
    out.push(b0);
    proof {
        assert(ascii_ok(out@));
        assert(ascii_chars(out@) =~= ascii_chars(old(out)@) + spec_hex4(n as nat));
    }
}

/// Append the JSON escape of one character.
fn push_escaped_char(out: &mut Vec<u8>, c: char)
    requires
        ascii_ok(old(out)@),
    ensures
        ascii_ok(final(out)@),
        ascii_chars(final(out)@) == ascii_chars(old(out)@) + spec_escape_char(c),
{
    let x = c as u32;
    if c == '"' {
        out.push(0x5c);
        out.push(0x22);
        proof {
            assert(ascii_chars(out@) =~= ascii_chars(old(out)@) + seq!['\\', '"']);
        }
    } else if c == '\\' {
        out.push(0x5c);
        out.push(0x5c);
        proof {
            assert(ascii_chars(out@) =~= ascii_chars(old(out)@) + seq!['\\', '\\']);
        }
    } else if x == 0x8 {
        out.push(0x5c);
        out.push(0x62);
        proof {
            assert(ascii_chars(out@) =~= ascii_chars(old(out)@) + seq!['\\', 'b']);
        }
    } else if x == 0xc {
        out.push(0x5c);
        out.push(0x66);
        proof {
            assert(ascii_chars(out@) =~= ascii_chars(old(out)@) + seq!['\\', 'f']);
        }
    } else if c == '\n' {
        out.push(0x5c);
        out.push(0x6e);
        proof {
            assert(ascii_chars(out@) =~= ascii_chars(old(out)@) + seq!['\\', 'n']);
        }
    } else if c == '\r' {
        out.push(0x5c);
        out.push(0x72);
        proof {
            assert(ascii_chars(out@) =~= ascii_chars(old(out)@) + seq!['\\', 'r']);
        }
    } else if c == '\t' {
        out.push(0x5c);
        out.push(0x74);
        proof {
            assert(ascii_chars(out@) =~= ascii_chars(old(out)@) + seq!['\\', 't']);
        }
    } else if x < 0x20 {
        out.push(0x5c);
        out.push(0x75);
        out.push(0x30);
        out.push(0x30);
        let ghost mid = out@;
        out.push(hex_digit_byte(((x / 0x10) % 16) as u8));
        out.push(hex_digit_byte((x % 16) as u8));
        proof {
            let n = c as u32 as nat;
            assert((n / 0x1000) % 16 == 0 && (n / 0x100) % 16 == 0);
            assert(spec_hex4(n).skip(2) =~= seq![hex_digit_char((n / 0x10) % 16), hex_digit_char(n % 16)]);
            assert(ascii_chars(out@) =~= ascii_chars(old(out)@) + (seq!['\\', 'u', '0', '0']
                + spec_hex4(n).skip(2)));
        }
    } else if x < 0x80 {
        out.push(x as u8);
        proof {
            assert(x as u8 as char == c);
            assert(ascii_chars(out@) =~= ascii_chars(old(out)@) + seq![c]);
        }
    } else if x < 0x10000 {
        out.push(0x5c);
        out.push(0x75);
        push_hex4(out, x);
        proof {
            assert(ascii_chars(out@) =~= ascii_chars(old(out)@) + (seq!['\\', 'u'] + spec_hex4(
                x as nat,
            )));
        }
    } else {
        let y = x - 0x10000;
        let hi = 0xd800 + y / 0x400;
        let lo = 0xdc00 + y % 0x400;
        out.push(0x5c);
        out.push(0x75);
        proof {
            assert(ascii_chars(out@) =~= ascii_chars(old(out)@) + seq!['\\', 'u']);
        }
        let ghost m1 = out@;
        push_hex4(out, hi);
        let ghost m2 = out@;
        out.push(0x5c);
        out.push(0x75);
        proof {
            assert(ascii_chars(out@) =~= ascii_chars(m2) + seq!['\\', 'u']);
        }
        let ghost m3 = out@;
        push_hex4(out, lo);
        proof {
            let n = c as u32 as nat;
            assert(hi == 0xd800 + (n - 0x10000) / 0x400);
            assert(lo == 0xdc00 + (n - 0x10000) % 0x400);
            assert(ascii_chars(out@) == ascii_chars(m3) + spec_hex4(lo as nat));
            assert(ascii_chars(m3) == ascii_chars(m2) + seq!['\\', 'u']);
            assert(ascii_chars(m2) == ascii_chars(m1) + spec_hex4(hi as nat));
            assert(ascii_chars(m1) == ascii_chars(old(out)@) + seq!['\\', 'u']);
            assert(ascii_chars(out@) =~= ascii_chars(old(out)@) + (seq!['\\', 'u'] + spec_hex4(
                (0xd800 + (n - 0x10000) / 0x400) as nat,
            ) + seq!['\\', 'u'] + spec_hex4((0xdc00 + (n - 0x10000) % 0x400) as nat)));
        }
    }
}

/// `spec_escape` of one more character is the escape so far plus that
/// character's escape.
proof fn lemma_escape_step(s: Seq<char>, i: int)
    requires
        0 <= i < s.len(),
    ensures
        spec_escape(s.take(i + 1)) == spec_escape(s.take(i)) + spec_escape_char(s[i]),
{
    assert(s.take(i + 1).drop_last() =~= s.take(i));
    assert(s.take(i + 1).last() == s[i]);
}

/// The JSON escape of a string: what stands between the quotes when the
/// string is rendered as a JSON string value. The result is pure ASCII.
pub fn escape_json(s: &str) -> (r: String)
    ensures
        r@ == spec_escape(s@),
{
    let mut out: Vec<u8> = Vec::new();
    let n = s.unicode_len();
    let mut i: usize = 0;
    while i < n
        invariant
            n == s@.len(),
            i <= n,
            ascii_ok(out@),
            ascii_chars(out@) == spec_escape(s@.take(i as int)),
        decreases n - i,
    {
        let c = s.get_char(i);
        push_escaped_char(&mut out, c);
        proof {
            lemma_escape_step(s@, i as int);
        }
        i += 1;
    }
    proof {
        assert(s@.take(n as int) =~= s@);
    }
    ascii_to_string(out)
}

/// Multiplying by ten appends a zero digit to the decimal rendering.
proof fn lemma_dec_times_ten(n: nat)
    requires
        n >= 1,
    ensures
        spec_dec(n * 10) == spec_dec(n).push(digit_char(0)),
{
    assert(n * 10 >= 10);
    assert((n * 10) / 10 == n) by (nonlinear_arith);
    assert((n * 10) % 10 == 0) by (nonlinear_arith);
    assert(spec_dec(n * 10) == spec_dec((n * 10) / 10).push(digit_char((n * 10) % 10)));
}

/// The reading's wall-clock second count in nanoseconds, as a decimal
/// string: the envelope line's timestamp. Rendered without multiplying, so
/// no second count overflows.
pub fn nanos_string(ts: u64) -> (r: String)
    ensures
        r@ == spec_dec(ts as nat * 1_000_000_000),
{
    if ts == 0 {
        dec_string(0)
    } else {
        let mut s = dec_string(ts);
        s.append("000000000");
        proof {
            reveal_strlit("000000000");
            let t = ts as nat;
            lemma_dec_times_ten(t);
            lemma_dec_times_ten(t * 10);
            lemma_dec_times_ten(t * 100);
            lemma_dec_times_ten(t * 1000);
            lemma_dec_times_ten(t * 10000);
            lemma_dec_times_ten(t * 100000);
            lemma_dec_times_ten(t * 1000000);
            lemma_dec_times_ten(t * 10000000);
            lemma_dec_times_ten(t * 100000000);
            assert(digit_char(0) == '0');
            assert(s@ =~= spec_dec(t * 1_000_000_000));
        }
        s
    }
}

/// The reading as the sink's inner entry JSON: the device id, the three
/// decoded values in decimal, and the MAC, in that order; the timestamp is
/// deliberately not part of the entry, as it stands in the envelope's line.
pub open spec fn spec_reading_json(r: SensorReading) -> Seq<char> {
    "{\"id\":\""@ + spec_escape(r.id@) + "\",\"temperature\":"@ + spec_temp_str(
        r.temperature_raw as nat,
    ) + ",\"battery\":"@ + spec_deci(r.battery_raw as nat) + ",\"humidity\":"@ + spec_deci(
        r.humidity_raw as nat,
    ) + ",\"mac\":\""@ + spec_escape(r.mac@) + "\"}"@
}

/// Render the reading's inner entry JSON.
pub fn reading_json(r: &SensorReading) -> (out: String)
    ensures
        out@ == spec_reading_json(*r),
{
    let mut s = String::new();
    s.append("{\"id\":\"");
    let e = escape_json(r.id.as_str());
    s.append(e.as_str());
    s.append("\",\"temperature\":");
    let t = temp_string(r.temperature_raw);
    s.append(t.as_str());
    s.append(",\"battery\":");
    let b = deci_string(r.battery_raw as u64);
    s.append(b.as_str());
    s.append(",\"humidity\":");
    let h = deci_string(r.humidity_raw as u64);
    s.append(h.as_str());
    s.append(",\"mac\":\"");
    let m = escape_json(r.mac.as_str());
    s.append(m.as_str());
    s.append("\"}");
    proof {
        assert(s@ =~= spec_reading_json(*r));
    }
    s
}

/// The whole wire envelope for one reading: one stream labelled under the
/// `house` key with the configured stream label, holding one value line of
/// the nanosecond timestamp and the inner entry JSON embedded as a JSON
/// string.
pub open spec fn spec_envelope(r: SensorReading, label: Seq<char>) -> Seq<char> {
    "{\"streams\":[{\"stream\":{\"house\":\""@ + spec_escape(label) + "\"},\"values\":[[\""@
        + spec_dec(r.timestamp as nat * 1_000_000_000) + "\",\""@ + spec_escape(
        spec_reading_json(r),
    ) + "\"]]}]}"@
}

/// Render the POST body shipping one reading to the sink.
pub fn build_envelope(r: &SensorReading, stream_value: &str) -> (out: String)
    ensures
        out@ == spec_envelope(*r, stream_value@),
{
    let mut s = String::new();
    s.append("{\"streams\":[{\"stream\":{\"house\":\"");
    let lab = escape_json(stream_value);
    s.append(lab.as_str());
    s.append("\"},\"values\":[[\"");
    let ts = nanos_string(r.timestamp);
    s.append(ts.as_str());
    s.append("\",\"");
    let inner = reading_json(r);
    let embedded = escape_json(inner.as_str());
    s.append(embedded.as_str());
    s.append("\"]]}]}");
    proof {
        assert(s@ =~= spec_envelope(*r, stream_value@));
    }
    s
}

/// The Authorization header value sent with each shipment: the word
/// `Basic`, one space, and the configured token.
pub fn auth_header(token: &str) -> (r: String)
    ensures
        r@ == "Basic "@ + token@,
{
    let mut s = String::new();
    s.append("Basic ");
    s.append(token);
    s
}

} // verus!
