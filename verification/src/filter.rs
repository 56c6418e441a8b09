//! The event filter: decides whether one broadcast event is a relevant
//! vendor sensor broadcast and extracts the payload bytes for decoding.
//!
//! An event is accepted exactly when it is a manufacturer-data advertisement
//! whose mapping holds an entry under the vendor key whose bytes 5..11 are
//! the vendor sentinel, and whose first entry (smallest key) carries a
//! payload long enough to decode. Every other event yields no reading; the
//! outcome says why, so the decision is auditable.

use vstd::prelude::*;
use crate::decode::{MIN_PAYLOAD_LEN, hex_digit_char, spec_hex};
use crate::reading::{SensorReading, decodes_to};

verus! {

/// The vendor identifier (0xEC88) under which the sentinel payload is
/// expected in the manufacturer-data mapping.
pub const VENDOR_KEY: u16 = 60552;

/// The six bytes whose lowercase hexadecimal form is the vendor sentinel
/// string `"454c4c495f52"`: a broadcast is taken to come from the expected
/// vendor exactly when bytes 5..11 of its vendor-key entry equal them.
pub open spec fn spec_sentinel() -> Seq<u8> {
    seq![0x45u8, 0x4cu8, 0x4cu8, 0x49u8, 0x5fu8, 0x52u8]
}

/// The manufacturer-data mapping of a broadcast event: vendor identifiers
/// to raw payload bytes, held in ascending key order — the mapping's
/// natural iteration order. The first entry is therefore the one with the
/// smallest key.
pub struct ManufacturerData {
    entries: Vec<(u16, Vec<u8>)>,
}

impl View for ManufacturerData {
    type V = Seq<(u16, Seq<u8>)>;

    closed spec fn view(&self) -> Seq<(u16, Seq<u8>)> {
        Seq::new(self.entries@.len(), |i: int| (self.entries@[i].0, self.entries@[i].1@))
    }
}

impl ManufacturerData {
    /// Keys are strictly ascending, hence unique.
    pub open spec fn well_formed(self) -> bool {
        forall|i: int, j: int|
            0 <= i < j < self@.len() ==> (#[trigger] self@[i]).0 < (#[trigger] self@[j]).0
    }

    /// Does the mapping hold an entry under `key`?
    pub open spec fn spec_contains(self, key: u16) -> bool {
        exists|i: int| 0 <= i < self@.len() && (#[trigger] self@[i]).0 == key
    }

    /// The bytes held under `key`.
    pub open spec fn spec_get(self, key: u16) -> Seq<u8>
        recommends
            self.spec_contains(key),
    {
        self@[choose|i: int| 0 <= i < self@.len() && (#[trigger] self@[i]).0 == key].1
    }

    /// An empty mapping.
    pub fn new() -> (r: ManufacturerData)
        ensures
            r@.len() == 0,
            r.well_formed(),
    {
        ManufacturerData { entries: Vec::new() }
    }

    /// How many entries the mapping holds.
    pub fn len(&self) -> (n: usize)
        ensures
            n == self@.len(),
    {
        self.entries.len()
    }

    /// The entry with the smallest key, if the mapping is non-empty.
    pub fn first_entry(&self) -> (r: Option<&(u16, Vec<u8>)>)
        ensures
            r is Some <==> self@.len() > 0,
            r is Some ==> ({
                let e = *(r->0);
                e.0 == self@[0].0 && e.1@ == self@[0].1
            }),
    {
        if self.entries.len() == 0 {
            None
        } else {
            Some(&self.entries[0])
        }
    }

    /// Look up the bytes held under `key`.
    pub fn get(&self, key: u16) -> (r: Option<&Vec<u8>>)
        requires
            self.well_formed(),
        ensures
            r is Some <==> self.spec_contains(key),
            r is Some ==> r->0@ == self.spec_get(key),
    {
        let n = self.entries.len();
        let mut i: usize = 0;
        while i < n
            invariant
                self.well_formed(),
                n == self@.len(),
                i <= n,
                forall|j: int| 0 <= j < i ==> (#[trigger] self@[j]).0 != key,
            decreases n - i,
        {
            if self.entries[i].0 == key {
                proof {
                    assert(self@[i as int].0 == key);
                    self.lemma_key_unique(key, i as int);
                }
                return Some(&self.entries[i].1);
            }
            i += 1;
        }
        None
    }

    /// With ascending keys, at most one index can hold `key`; so `spec_get`
    /// is the value at any index that holds it.
    proof fn lemma_key_unique(self, key: u16, i: int)
        requires
            self.well_formed(),
            0 <= i < self@.len(),
            self@[i].0 == key,
        ensures
            self.spec_contains(key),
            self.spec_get(key) == self@[i].1,
    {
        assert(self.spec_contains(key));
        let c = choose|j: int| 0 <= j < self@.len() && (#[trigger] self@[j]).0 == key;
        if c < i {
            assert(self@[c].0 < self@[i].0);
        }
        if i < c {
            assert(self@[i].0 < self@[c].0);
        }
        assert(c == i);
    }

    /// Insert `value` under `key`, keeping ascending key order: the entry
    /// replaces the one under `key` if present, and every other entry is
    /// unchanged — exactly an ordered map's insertion.
    pub fn insert(&mut self, key: u16, value: Vec<u8>)
        requires
            old(self).well_formed(),
        ensures
            final(self).well_formed(),
            final(self).spec_contains(key),
            final(self).spec_get(key) == value@,
            forall|k: u16|
                k != key ==> (final(self).spec_contains(k) <==> old(self).spec_contains(k)),
            forall|k: u16|
                k != key && old(self).spec_contains(k) ==> final(self).spec_get(k) == old(
                    self,
                ).spec_get(k),
            final(self)@.len() == old(self)@.len() + (if old(self).spec_contains(key) {
                0int
            } else {
                1int
            }),
    {
        let ghost pre = *self;
        let n = self.entries.len();
        let mut i: usize = 0;
        while i < n && self.entries[i].0 < key
            invariant
                *self == pre,
                n == self@.len(),
                i <= n,
                forall|j: int| 0 <= j < i ==> (#[trigger] self@[j]).0 < key,
            decreases n - i,
        {
            i += 1;
        }
        if i < n && self.entries[i].0 == key {
            proof {
                pre.lemma_key_unique(key, i as int);
            }
            self.entries.set(i, (key, value));
            proof {
                assert(self@ =~= pre@.update(i as int, (key, value@)));
                self.lemma_insert_post_replace(pre, key, value@, i as int);
            }
        } else {
            proof {
                if i < n {
                    assert(self@[i as int].0 >= key);
                    assert(self@[i as int].0 != key);
                }
                if pre.spec_contains(key) {
                    let c = choose|j: int|
                        0 <= j < pre@.len() && (#[trigger] pre@[j]).0 == key;
                    assert(false);
                }
            }
            self.entries.insert(i, (key, value));
            proof {
                assert(self@ =~= pre@.insert(i as int, (key, value@)));
                self.lemma_insert_post_fresh(pre, key, value@, i as int);
            }
        }
    }

    /// After replacing the entry at `i`, the mapping view is the old one
    /// with only `key` rebound.
    proof fn lemma_insert_post_replace(self, pre: ManufacturerData, key: u16, value: Seq<u8>, i: int)
        requires
            pre.well_formed(),
            0 <= i < pre@.len(),
            pre@[i].0 == key,
            self@ == pre@.update(i, (key, value)),
        ensures
            self.well_formed(),
            self.spec_contains(key),
            self.spec_get(key) == value,
            forall|k: u16| k != key ==> (self.spec_contains(k) <==> pre.spec_contains(k)),
            forall|k: u16|
                k != key && pre.spec_contains(k) ==> self.spec_get(k) == pre.spec_get(k),
            self@.len() == pre@.len(),
    {
        assert(forall|j: int| 0 <= j < self@.len() ==> (#[trigger] self@[j]).0 == pre@[j].0);
        assert(self.well_formed());
        assert(self@[i].0 == key);
        self.lemma_key_unique(key, i);
        assert forall|k: u16| k != key implies (self.spec_contains(k) <==> pre.spec_contains(
            k,
        )) by {
            if self.spec_contains(k) {
                let c = choose|j: int| 0 <= j < self@.len() && (#[trigger] self@[j]).0 == k;
                assert(pre@[c].0 == k);
            }
            if pre.spec_contains(k) {
                let c = choose|j: int| 0 <= j < pre@.len() && (#[trigger] pre@[j]).0 == k;
                assert(self@[c].0 == k);
            }
        }
        assert forall|k: u16| k != key && pre.spec_contains(k) implies self.spec_get(k)
            == pre.spec_get(k) by {
            let c = choose|j: int| 0 <= j < pre@.len() && (#[trigger] pre@[j]).0 == k;
            assert(c != i);
            assert(self@[c] == pre@[c]);
            pre.lemma_key_unique(k, c);
            self.lemma_key_unique(k, c);
        }
    }

    /// After inserting a fresh entry at the sorted position `i`, the mapping
    /// view is the old one extended with `key`.
    proof fn lemma_insert_post_fresh(self, pre: ManufacturerData, key: u16, value: Seq<u8>, i: int)
        requires
            pre.well_formed(),
            0 <= i <= pre@.len(),
            forall|j: int| 0 <= j < i ==> (#[trigger] pre@[j]).0 < key,
            forall|j: int| i <= j < pre@.len() ==> (#[trigger] pre@[j]).0 > key,
            self@ == pre@.insert(i, (key, value)),
        ensures
            self.well_formed(),
            self.spec_contains(key),
            self.spec_get(key) == value,
            forall|k: u16| k != key ==> (self.spec_contains(k) <==> pre.spec_contains(k)),
            forall|k: u16|
                k != key && pre.spec_contains(k) ==> self.spec_get(k) == pre.spec_get(k),
            self@.len() == pre@.len() + 1,
    {
        assert(forall|j: int| 0 <= j < i ==> self@[j] == pre@[j]);
        assert(self@[i] == (key, value));
        assert(forall|j: int| i < j < self@.len() ==> self@[j] == pre@[j - 1]);
        assert(self.well_formed());
        self.lemma_key_unique(key, i);
        assert forall|k: u16| k != key implies (self.spec_contains(k) <==> pre.spec_contains(
            k,
        )) by {
            if self.spec_contains(k) {
                let c = choose|j: int| 0 <= j < self@.len() && (#[trigger] self@[j]).0 == k;
                if c < i {
                    assert(pre@[c].0 == k);
                } else {
                    assert(pre@[c - 1].0 == k);
                }
            }
            if pre.spec_contains(k) {
                let c = choose|j: int| 0 <= j < pre@.len() && (#[trigger] pre@[j]).0 == k;
                if c < i {
                    assert(self@[c].0 == k);
                } else {
                    assert(self@[c + 1].0 == k);
                }
            }
        }
        assert forall|k: u16| k != key && pre.spec_contains(k) implies self.spec_get(k)
            == pre.spec_get(k) by {
            let c = choose|j: int| 0 <= j < pre@.len() && (#[trigger] pre@[j]).0 == k;
            pre.lemma_key_unique(k, c);
            if c < i {
                assert(self@[c].0 == k);
                self.lemma_key_unique(k, c);
            } else {
                assert(self@[c + 1].0 == k);
                self.lemma_key_unique(k, c + 1);
            }
        }
    }
}

/// Distinct digit values below 16 render as distinct hex digit characters.
proof fn lemma_hex_digit_char_injective(d1: nat, d2: nat)
    requires
        d1 < 16,
        d2 < 16,
        hex_digit_char(d1) == hex_digit_char(d2),
    ensures
        d1 == d2,
{
    assert(hex_digit_char(d1) as u32 == if d1 < 10 {
        0x30 + d1
    } else {
        0x57 + d1
    });
    assert(hex_digit_char(d2) as u32 == if d2 < 10 {
        0x30 + d2
    } else {
        0x57 + d2
    });
}

/// A byte is determined by its two hex digit characters.
proof fn lemma_byte_from_hex(x: u8, b: u8)
    requires
        hex_digit_char((x / 16) as nat) == hex_digit_char((b / 16) as nat),
        hex_digit_char((x % 16) as nat) == hex_digit_char((b % 16) as nat),
    ensures
        x == b,
{
    lemma_hex_digit_char_injective((x / 16) as nat, (b / 16) as nat);
    lemma_hex_digit_char_injective((x % 16) as nat, (b % 16) as nat);
    assert(x == (x / 16) * 16 + (x % 16)) by (nonlinear_arith);
    assert(b == (b / 16) * 16 + (b % 16)) by (nonlinear_arith);
}

/// Six bytes hex-encode to the sentinel string exactly when they are the
/// sentinel bytes: the vendor check on the hex form and the check on the
/// raw bytes agree.
pub proof fn lemma_sentinel_hex(s: Seq<u8>)
    requires
        s.len() == 6,
    ensures
        spec_hex(s) == "454c4c495f52"@ <==> s == spec_sentinel(),
{
    reveal_strlit("454c4c495f52");
    let t = spec_sentinel();
    assert(spec_hex(t) =~= "454c4c495f52"@);
    if spec_hex(s) == "454c4c495f52"@ {
        assert forall|i: int| 0 <= i < 6 implies s[i] == t[i] by {
            assert(spec_hex(s)[2 * i] == spec_hex(t)[2 * i]);
            assert(spec_hex(s)[2 * i + 1] == spec_hex(t)[2 * i + 1]);
            assert((2 * i) / 2 == i && (2 * i) % 2 == 0);
            assert((2 * i + 1) / 2 == i && (2 * i + 1) % 2 == 1);
            lemma_byte_from_hex(s[i], t[i]);
        }
        assert(s =~= t);
    }
}

/// In a well-formed mapping the first entry is the one with the smallest
/// key: the mapping's natural iteration order starts at it.
pub proof fn lemma_first_entry_is_min(md: ManufacturerData)
    requires
        md.well_formed(),
        md@.len() > 0,
    ensures
        forall|k: u16| md.spec_contains(k) ==> md@[0].0 <= k,
{
    assert forall|k: u16| md.spec_contains(k) implies md@[0].0 <= k by {
        let c = choose|j: int| 0 <= j < md@.len() && (#[trigger] md@[j]).0 == k;
        if c > 0 {
            assert(md@[0].0 < md@[c].0);
        }
    }
}

/// A broadcast event, as the advertisement source reports it: a closed sum
/// over the source's event kinds. Only a manufacturer-data advertisement
/// carries data the pipeline reads; the other kinds are carried with just
/// the device id they concern (or nothing, for an adapter state change) and
/// are always rejected by the filter.
pub enum Event {
    ManufacturerDataAdvertisement { id: String, manufacturer_data: ManufacturerData },
    DeviceDiscovered { id: String },
    DeviceUpdated { id: String },
    DeviceConnected { id: String },
    DeviceDisconnected { id: String },
    ServiceDataAdvertisement { id: String },
    ServicesAdvertisement { id: String },
    StateUpdate,
}

impl Event {
    /// The event's manufacturer-data mapping is in ascending key order.
    pub open spec fn well_formed(self) -> bool {
        match self {
            Event::ManufacturerDataAdvertisement { manufacturer_data, .. } => {
                manufacturer_data.well_formed()
            },
            _ => true,
        }
    }

    /// The device id of a manufacturer-data advertisement.
    pub open spec fn spec_id(self) -> Seq<char>
        recommends
            self is ManufacturerDataAdvertisement,
    {
        self->ManufacturerDataAdvertisement_id@
    }

    /// The manufacturer-data mapping of a manufacturer-data advertisement.
    pub open spec fn spec_md(self) -> ManufacturerData
        recommends
            self is ManufacturerDataAdvertisement,
    {
        self->ManufacturerDataAdvertisement_manufacturer_data
    }
}

/// The vendor identification check on a manufacturer-data mapping: it holds
/// an entry under the vendor key, long enough for its MAC field, and that
/// field's bytes are the vendor sentinel.
pub open spec fn spec_vendor_ok(md: ManufacturerData) -> bool {
    &&& md.spec_contains(VENDOR_KEY)
    &&& md.spec_get(VENDOR_KEY).len() >= MIN_PAYLOAD_LEN
    &&& md.spec_get(VENDOR_KEY).subrange(5, 11) == spec_sentinel()
}

/// The acceptance rule, all of which must hold: the event is a
/// manufacturer-data advertisement, the vendor identification check passes,
/// and the mapping's first entry carries a payload long enough to decode.
pub open spec fn spec_accepts(e: Event) -> bool {
    &&& e is ManufacturerDataAdvertisement
    &&& spec_vendor_ok(e.spec_md())
    &&& e.spec_md()@.len() > 0
    &&& e.spec_md()@[0].1.len() >= MIN_PAYLOAD_LEN
}

/// Why an event was accepted or rejected. All rejections alike produce no
/// reading; the variants make the decision auditable.
pub enum FilterOutcome {
    /// The event is a vendor broadcast: decode `payload` for device `id`.
    Accepted { id: String, payload: Vec<u8> },
    /// The event is not a manufacturer-data advertisement.
    WrongVariant,
    /// The mapping holds no entry under the vendor key (in particular, it
    /// is empty).
    VendorKeyMissing,
    /// The vendor-key entry is too short for its MAC field, or that field
    /// is not the vendor sentinel.
    MagicMismatch,
    /// The first entry's payload is too short to decode.
    PayloadTooShort,
}

/// Do bytes 5..11 of `data` spell the vendor sentinel?
pub fn has_sentinel(data: &[u8]) -> (r: bool)
    requires
        data@.len() >= MIN_PAYLOAD_LEN,
    ensures
        r == (data@.subrange(5, 11) == spec_sentinel()),
{
    let r = data[5] == 0x45 && data[6] == 0x4c && data[7] == 0x4c && data[8] == 0x49 && data[9]
        == 0x5f && data[10] == 0x52;
    proof {
        let s = data@.subrange(5, 11);
        let t = spec_sentinel();
        assert(s.len() == 6);
        assert(forall|i: int| 0 <= i < 6 ==> s[i] == data@[5 + i]);
        if r {
            assert(s =~= t);
        } else {
            if s == t {
                assert(data@[5] == 0x45 && data@[6] == 0x4c && data@[7] == 0x4c && data@[8] == 0x49
                    && data@[9] == 0x5f && data@[10] == 0x52);
            }
        }
    }
    r
}

/// Decide whether `event` is a relevant vendor broadcast. The outcome is
/// `Accepted` exactly on the acceptance rule, with the device id and the
/// first entry's payload; each rejection variant names the first rule that
/// failed, checked in the order: event kind, vendor key present, sentinel
/// matches, first payload long enough.
pub fn filter_event(event: &Event) -> (r: FilterOutcome)
    requires
        event.well_formed(),
    ensures
        r is Accepted <==> spec_accepts(*event),
        r is Accepted ==> r->Accepted_id@ == event.spec_id() && r->Accepted_payload@
            == event.spec_md()@[0].1,
        r is WrongVariant <==> !(*event is ManufacturerDataAdvertisement),
        r is VendorKeyMissing <==> *event is ManufacturerDataAdvertisement && !event.spec_md(
        ).spec_contains(VENDOR_KEY),
        r is MagicMismatch <==> *event is ManufacturerDataAdvertisement && event.spec_md(
        ).spec_contains(VENDOR_KEY) && !(event.spec_md().spec_get(VENDOR_KEY).len()
            >= MIN_PAYLOAD_LEN && event.spec_md().spec_get(VENDOR_KEY).subrange(5, 11)
            == spec_sentinel()),
        r is PayloadTooShort <==> *event is ManufacturerDataAdvertisement && spec_vendor_ok(
            event.spec_md(),
        ) && event.spec_md()@[0].1.len() < MIN_PAYLOAD_LEN,
{
    match event {
        Event::ManufacturerDataAdvertisement { id, manufacturer_data } => {
            match manufacturer_data.get(VENDOR_KEY) {
                None => FilterOutcome::VendorKeyMissing,
                Some(vendor) => {
                    if vendor.len() < MIN_PAYLOAD_LEN {
                        FilterOutcome::MagicMismatch
                    } else if !has_sentinel(vendor.as_slice()) {
                        FilterOutcome::MagicMismatch
                    } else {
                        proof {
                            assert(manufacturer_data@.len() > 0);
                        }
                        match manufacturer_data.first_entry() {
                            None => {
                                proof {
                                    assert(false);
                                }
                                vstd::pervasive::unreached()
                            },
                            Some(first) => {
                                if first.1.len() < MIN_PAYLOAD_LEN {
                                    FilterOutcome::PayloadTooShort
                                } else {
                                    let payload = first.1.clone();
                                    proof {
                                        assert(payload@ =~= event.spec_md()@[0].1);
                                    }
                                    FilterOutcome::Accepted { id: id.clone(), payload }
                                }
                            },
                        }
                    }
                },
            }
        },
        _ => FilterOutcome::WrongVariant,
    }
}

/// Turn one broadcast event into a reading, if it is a vendor broadcast:
/// the filter's decision followed by the decode of the first entry's
/// payload. Every rejected event yields no reading.
pub fn handle_event(event: &Event) -> (r: Option<SensorReading>)
    requires
        event.well_formed(),
    ensures
        r is Some <==> spec_accepts(*event),
        r is Some ==> decodes_to(event.spec_id(), event.spec_md()@[0].1, r->0) && r->0.well_formed(),
{
    match filter_event(event) {
        FilterOutcome::Accepted { id, payload } => SensorReading::from_data(
            id.as_str(),
            payload.as_slice(),
        ),
        _ => None,
    }
}

} // verus!
