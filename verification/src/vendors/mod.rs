//! Per-vendor decoders for the proprietary manufacturer data that earbuds
//! broadcast next to the standard Bluetooth profiles, and the dispatch
//! between them.

pub mod apple;
pub mod samsung;
pub mod xiaomi;

use std::collections::HashMap;
use vstd::prelude::*;

verus! {

/// What can be recovered from an earbud advertisement. Every field is
/// optional: a decoder fills only what it is confident about.
#[derive(Clone, Copy, Debug)]
pub struct Components {
    pub left_battery: Option<u8>,
    pub right_battery: Option<u8>,
    pub case_battery: Option<u8>,
    pub left_charging: Option<bool>,
    pub right_charging: Option<bool>,
    pub case_charging: Option<bool>,
    pub in_ear_left: Option<bool>,
    pub in_ear_right: Option<bool>,
    pub case_open: Option<bool>,
    /// Model or vendor label shown in the UI header.
    pub source: &'static str,
}

/// Mathematical picture of [`Components`]: the label becomes its characters.
pub struct ComponentsView {
    pub left_battery: Option<u8>,
    pub right_battery: Option<u8>,
    pub case_battery: Option<u8>,
    pub left_charging: Option<bool>,
    pub right_charging: Option<bool>,
    pub case_charging: Option<bool>,
    pub in_ear_left: Option<bool>,
    pub in_ear_right: Option<bool>,
    pub case_open: Option<bool>,
    pub source: Seq<char>,
}

impl View for Components {
    type V = ComponentsView;

    open spec fn view(&self) -> ComponentsView {
        ComponentsView {
            left_battery: self.left_battery,
            right_battery: self.right_battery,
            case_battery: self.case_battery,
            left_charging: self.left_charging,
            right_charging: self.right_charging,
            case_charging: self.case_charging,
            in_ear_left: self.in_ear_left,
            in_ear_right: self.in_ear_right,
            case_open: self.case_open,
            source: self.source@,
        }
    }
}

/// The view of an optional decode result.
pub open spec fn opt_view(c: Option<Components>) -> Option<ComponentsView> {
    match c {
        Some(c) => Some(c@),
        None => None,
    }
}

impl ComponentsView {
    /// At least one battery or in-ear field is populated.
    pub open spec fn meaningful(self) -> bool {
        self.left_battery is Some || self.right_battery is Some || self.case_battery is Some
            || self.in_ear_left is Some || self.in_ear_right is Some
    }

    /// Every battery field that is present is a percentage.
    pub open spec fn batteries_valid(self) -> bool {
        &&& (self.left_battery matches Some(b) ==> b <= 100)
        &&& (self.right_battery matches Some(b) ==> b <= 100)
        &&& (self.case_battery matches Some(b) ==> b <= 100)
    }
}

impl Default for Components {
    fn default() -> (c: Components)
        ensures
            c.left_battery is None && c.right_battery is None && c.case_battery is None,
            c.left_charging is None && c.right_charging is None && c.case_charging is None,
            c.in_ear_left is None && c.in_ear_right is None && c.case_open is None,
            c.source@ == ""@,
    {
        Components {
            left_battery: None,
            right_battery: None,
            case_battery: None,
            left_charging: None,
            right_charging: None,
            case_charging: None,
            in_ear_left: None,
            in_ear_right: None,
            case_open: None,
            source: "",
        }
    }
}

impl Components {
    /// `true` if at least one meaningful field is populated. A decoder that
    /// produced nothing but defaults counts as a failed decode.
    pub fn is_meaningful(&self) -> (b: bool)
        ensures
            b == self@.meaningful(),
    {
        self.left_battery.is_some() || self.right_battery.is_some() || self.case_battery.is_some()
            || self.in_ear_left.is_some() || self.in_ear_right.is_some()
    }
}

/// Vendor id under which Apple announces Proximity Pairing payloads.
pub const VENDOR_APPLE: u16 = 0x004C;

/// Vendor id of Samsung.
pub const VENDOR_SAMSUNG: u16 = 0x0075;

/// Vendor id of Xiaomi.
pub const VENDOR_XIAOMI: u16 = 0x038F;

/// What the dispatch recovers from one `(vendor id, payload)` pair: the
/// vendor's decode, kept only when it is meaningful.
pub open spec fn spec_decode(manufacturer_id: u16, data: Seq<u8>) -> Option<ComponentsView> {
    let raw = if manufacturer_id == VENDOR_APPLE {
        apple::spec_decode(data)
    } else if manufacturer_id == VENDOR_XIAOMI {
        xiaomi::spec_decode(data)
    } else {
        None
    };
    match raw {
        Some(c) => if c.meaningful() {
            Some(c)
        } else {
            None
        },
        None => None,
    }
}

/// Tries the decoder registered for `manufacturer_id` on `data` and keeps
/// its result only when it is meaningful. The device name is not consulted.
pub fn decode(manufacturer_id: u16, data: &[u8], _device_name: &str) -> (r: Option<Components>)
    ensures
        opt_view(r) == spec_decode(manufacturer_id, data@),
{
    let result = if manufacturer_id == VENDOR_APPLE {
        apple::decode(data)
    } else if manufacturer_id == VENDOR_SAMSUNG {
        samsung::decode(data)
    } else if manufacturer_id == VENDOR_XIAOMI {
        xiaomi::decode(data)
    } else {
        None
    };
    match result {
        Some(c) => if c.is_meaningful() {
            Some(c)
        } else {
            None
        },
        None => None,
    }
}

/// Best-effort decode over a whole manufacturer-data map: earbuds sometimes
/// announce themselves under several vendor ids, and the first entry that
/// decodes wins. Which entry comes first follows the map's own order, so
/// the contract says what holds whichever entry is found.
pub fn decode_map(map: &HashMap<u16, Vec<u8>>, name: &str) -> (r: Option<Components>)
    ensures
        r matches Some(c) ==> exists|k: u16|
            #[trigger] map@.contains_key(k) && spec_decode(k, map@[k]@) == Some(c@),
        r is None ==> forall|k: u16|
            #[trigger] map@.contains_key(k) ==> spec_decode(k, map@[k]@) is None,
{
    broadcast use vstd::std_specs::hash::group_hash_axioms;
    for (id, data) in it: map.iter()
        invariant
            it.seq() == vstd::std_specs::iter::IteratorSpec::remaining(&vstd::std_specs::hash::spec_hash_map_iter(map)),
            forall|j: int| 0 <= j < it.index() ==>
                spec_decode(*(#[trigger] it.seq()[j]).0, (*it.seq()[j].1)@) is None,
    {
        if let Some(c) = decode(*id, data.as_slice(), name) {
            assert(map@.contains_key(*it.seq()[it.index() as int].0));
            return Some(c);
        }
    }
    assert forall|k: u16| #[trigger] map@.contains_key(k) implies spec_decode(k, map@[k]@) is None by {
        assert(vstd::std_specs::iter::IteratorSpec::remaining(&vstd::std_specs::hash::spec_hash_map_iter(map)).contains((&k, &map@[k])));
    }
    None
}

/// Whatever the dispatch recovers is meaningful, and every battery it
/// reports is a percentage (at most 100), whichever vendor decoded it.
pub proof fn law_decode_meaningful_and_valid(manufacturer_id: u16, data: Seq<u8>)
    ensures
        spec_decode(manufacturer_id, data) matches Some(c) ==> c.meaningful() && c.batteries_valid(),
{
    if spec_decode(manufacturer_id, data) is Some {
        if manufacturer_id == VENDOR_APPLE {
            apple::law_batteries_are_tens(data);
        }
    }
}

/// The dispatch hands on what the vendor's decoder found: a Xiaomi decode
/// always has a battery reading, so it is kept as it is; an Apple decode is
/// kept whenever one of its batteries is known; a vendor without a decoder
/// gives nothing.
pub proof fn law_dispatch_keeps_vendor_readings(data: Seq<u8>, other: u16)
    ensures
        spec_decode(VENDOR_XIAOMI, data) == xiaomi::spec_decode(data),
        (apple::spec_decode(data) matches Some(c) && (c.left_battery is Some || c.right_battery is Some
            || c.case_battery is Some)) ==> spec_decode(VENDOR_APPLE, data) == apple::spec_decode(data),
        other != VENDOR_APPLE && other != VENDOR_XIAOMI ==> spec_decode(other, data) is None,
{
}

} // verus!
