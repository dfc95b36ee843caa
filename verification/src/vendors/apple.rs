//! Apple "Continuity: Proximity Pairing" advertisements (vendor id 0x004C).
//!
//! Byte layout of the manufacturer data payload:
//!
//!   byte  0    : 0x07, the Continuity subtype "ProximityPairing"
//!   byte  1    : 0x19, the payload length (25)
//!   bytes 2..3 : model id, big-endian (0x0F20 is AirPods Pro)
//!   byte  10   : status flags (bit 1 clear: right bud reported first;
//!                bit 3: case lid open)
//!   byte  11   : two battery nibbles, one per bud
//!   byte  12   : high nibble = charging flags (bit 0 right, bit 1 left,
//!                bit 2 case)
//!   byte  14   : low nibble = case battery
//!
//! A battery nibble of 0..=10 means ten times that many percent; anything
//! else means the part is not reporting.

use vstd::prelude::*;
use super::{Components, ComponentsView, opt_view};

verus! {

/// Percentage carried by a battery nibble, if it reports one.
pub open spec fn spec_nibble_to_pct(n: u8) -> Option<u8> {
    if n <= 10 {
        Some((n * 10) as u8)
    } else {
        None
    }
}

/// Name of the product behind a Proximity Pairing model id.
pub open spec fn spec_model_name(id: u16) -> Option<Seq<char>> {
    if id == 0x0220 {
        Some("AirPods 1st gen"@)
    } else if id == 0x0F20 {
        Some("AirPods Pro"@)
    } else if id == 0x1420 {
        Some("AirPods Max"@)
    } else if id == 0x0620 {
        Some("AirPods 2nd gen"@)
    } else if id == 0x1320 {
        Some("AirPods 3rd gen"@)
    } else if id == 0x0E20 {
        Some("Powerbeats Pro"@)
    } else if id == 0x0A20 {
        Some("Beats Solo Pro"@)
    } else if id == 0x0320 {
        Some("Powerbeats3"@)
    } else if id == 0x0B20 {
        Some("Beats Studio Buds"@)
    } else if id == 0x1220 {
        Some("Beats Studio Buds+"@)
    } else if id == 0x0D20 {
        Some("Beats Fit Pro"@)
    } else {
        None
    }
}

/// The big-endian model id in bytes 2 and 3.
pub open spec fn spec_model_id(data: Seq<u8>) -> u16 {
    ((data[2] as u16) * 256 + (data[3] as u16)) as u16
}

/// The buds are reported right-first when bit 1 of the status byte is clear.
pub open spec fn spec_flipped(status: u8) -> bool {
    status & 0x02 == 0
}

/// Raw left and right nibbles of the battery byte under the flip convention.
pub open spec fn spec_bud_nibbles(status: u8, batt: u8) -> (u8, u8) {
    if spec_flipped(status) {
        (batt >> 4, batt & 0x0F)
    } else {
        (batt & 0x0F, batt >> 4)
    }
}

/// A payload carries the Proximity Pairing header and is long enough.
pub open spec fn spec_header_ok(data: Seq<u8>) -> bool {
    data.len() >= 16 && data[0] == 0x07 && data[1] == 0x19
}

/// What the decoder recovers from a payload.
pub open spec fn spec_decode(data: Seq<u8>) -> Option<ComponentsView> {
    if !spec_header_ok(data) {
        None
    } else {
        match spec_model_name(spec_model_id(data)) {
            None => None,
            Some(name) => {
                let status = data[10];
                let (l, r) = spec_bud_nibbles(status, data[11]);
                let charge = (data[12] >> 4) & 0x0F;
                Some(ComponentsView {
                    left_battery: spec_nibble_to_pct(l),
                    right_battery: spec_nibble_to_pct(r),
                    case_battery: spec_nibble_to_pct(data[14] & 0x0F),
                    left_charging: Some(charge & 0x02 != 0),
                    right_charging: Some(charge & 0x01 != 0),
                    case_charging: Some(charge & 0x04 != 0),
                    in_ear_left: None,
                    in_ear_right: None,
                    case_open: Some(status & 0x08 != 0),
                    source: name,
                })
            },
        }
    }
}

/// Decodes a Proximity Pairing payload.
pub fn decode(data: &[u8]) -> (r: Option<Components>)
    ensures
        opt_view(r) == spec_decode(data@),
{
    if data.len() < 16 {
        return None;
    }
    if data[0] != 0x07 || data[1] != 0x19 {
        return None;
    }
    let model: u16 = (data[2] as u16) * 256 + (data[3] as u16);
    let name = match model_name(model) {
        Some(n) => n,
        None => return None,
    };
    let status = data[10];
    let flip = (status & 0x02) == 0;
    let batt_byte = data[11];
    let (l_raw, r_raw) = if flip {
        (batt_byte >> 4, batt_byte & 0x0F)
    } else {
        (batt_byte & 0x0F, batt_byte >> 4)
    };
    let case_raw = data[14] & 0x0F;
    let charge = (data[12] >> 4) & 0x0F;
    let right_charging = (charge & 0x01) != 0;
    let left_charging = (charge & 0x02) != 0;
    let case_charging = (charge & 0x04) != 0;
    let case_open = (status & 0x08) != 0;
    Some(Components {
        left_battery: nibble_to_pct(l_raw),
        right_battery: nibble_to_pct(r_raw),
        case_battery: nibble_to_pct(case_raw),
        left_charging: Some(left_charging),
        right_charging: Some(right_charging),
        case_charging: Some(case_charging),
        in_ear_left: None,
        in_ear_right: None,
        case_open: Some(case_open),
        source: name,
    })
}

/// Percentage carried by a battery nibble; 11..=15 mean "not reporting".
pub fn nibble_to_pct(n: u8) -> (r: Option<u8>)
    ensures
        r == spec_nibble_to_pct(n),
{
    if n <= 10 {
        Some(n * 10)
    } else {
        None
    }
}

/// Product name of a model id, for the ids that are known.
pub fn model_name(id: u16) -> (r: Option<&'static str>)
    ensures
        match r {
            Some(s) => spec_model_name(id) == Some(s@),
            None => spec_model_name(id) is None,
        },
{
    if id == 0x0220 {
        Some("AirPods 1st gen")
    } else if id == 0x0F20 {
        Some("AirPods Pro")
    } else if id == 0x1420 {
        Some("AirPods Max")
    } else if id == 0x0620 {
        Some("AirPods 2nd gen")
    } else if id == 0x1320 {
        Some("AirPods 3rd gen")
    } else if id == 0x0E20 {
        Some("Powerbeats Pro")
    } else if id == 0x0A20 {
        Some("Beats Solo Pro")
    } else if id == 0x0320 {
        Some("Powerbeats3")
    } else if id == 0x0B20 {
        Some("Beats Studio Buds")
    } else if id == 0x1220 {
        Some("Beats Studio Buds+")
    } else if id == 0x0D20 {
        Some("Beats Fit Pro")
    } else {
        None
    }
}

/// Every battery reading an Apple payload yields is a multiple of ten
/// between 0 and 100.
pub proof fn law_batteries_are_tens(data: Seq<u8>)
    ensures
        spec_decode(data) matches Some(c) ==> {
            &&& (c.left_battery matches Some(b) ==> b <= 100 && b % 10 == 0)
            &&& (c.right_battery matches Some(b) ==> b <= 100 && b % 10 == 0)
            &&& (c.case_battery matches Some(b) ==> b <= 100 && b % 10 == 0)
        },
{
}

/// A battery nibble of value 0 to 10 reads ten times that many percent; any
/// larger nibble reads as unknown.
pub open spec fn nibble_reading(n: int) -> Option<u8> {
    if 0 <= n <= 10 {
        Some((10 * n) as u8)
    } else {
        None
    }
}

/// Only a payload with the Proximity Pairing header (`07 19`, at least 16
/// bytes) decodes. The bud batteries are the two nibbles of byte 11: with
/// bit 1 of the status byte set the left bud is the low nibble and the
/// right bud the high one, with it clear the other way round; the case
/// battery is the low nibble of byte 14.
pub proof fn law_battery_nibbles(data: Seq<u8>)
    ensures
        spec_decode(data) is Some ==> data.len() >= 16 && data[0] == 0x07 && data[1] == 0x19,
        spec_decode(data) matches Some(c) ==> {
            let hi = data[11] / 16;
            let lo = data[11] % 16;
            &&& (data[10] % 4 >= 2 ==> c.left_battery == nibble_reading(lo as int)
                && c.right_battery == nibble_reading(hi as int))
            &&& (data[10] % 4 < 2 ==> c.left_battery == nibble_reading(hi as int)
                && c.right_battery == nibble_reading(lo as int))
            &&& c.case_battery == nibble_reading((data[14] % 16) as int)
        },
{
    if data.len() >= 16 {
        let b = data[11];
        let st = data[10];
        let cb = data[14];
        assert(b >> 4 == b / 16) by (bit_vector);
        assert(b & 0x0F == b % 16) by (bit_vector);
        assert(cb & 0x0F == cb % 16) by (bit_vector);
        assert((st & 0x02 == 0) == (st % 4 < 2)) by (bit_vector);
    }
}

/// The charging flags come from the high nibble of byte 12: its bit 0 is
/// the right bud, bit 1 the left bud and bit 2 the case; the lid is open
/// when bit 3 of the status byte (byte 10) is set. None of them depends on
/// which way round the buds are reported.
pub proof fn law_charging_and_lid_bits(data: Seq<u8>)
    ensures
        spec_decode(data) matches Some(c) ==> {
            &&& c.right_charging == Some(((data[12] >> 4) & 0x01) != 0)
            &&& c.left_charging == Some(((data[12] >> 4) & 0x02) != 0)
            &&& c.case_charging == Some(((data[12] >> 4) & 0x04) != 0)
            &&& c.case_open == Some((data[10] & 0x08) != 0)
        },
{
    if data.len() >= 16 {
        let b = data[12];
        assert((((b >> 4) & 0x0F) & 0x01) == ((b >> 4) & 0x01)) by (bit_vector);
        assert((((b >> 4) & 0x0F) & 0x02) == ((b >> 4) & 0x02)) by (bit_vector);
        assert((((b >> 4) & 0x0F) & 0x04) == ((b >> 4) & 0x04)) by (bit_vector);
    }
}

/// Bit 1 of the status byte only decides which nibble belongs to which
/// bud: toggling it swaps the left and right readings and changes nothing
/// else.
pub proof fn law_status_bit_swaps_buds(data: Seq<u8>)
    requires
        data.len() >= 16,
    ensures
        ({
            let toggled = data.update(10, data[10] ^ 0x02);
            match (spec_decode(data), spec_decode(toggled)) {
                (Some(a), Some(b)) => {
                    &&& a.left_battery == b.right_battery
                    &&& a.right_battery == b.left_battery
                    &&& a.case_battery == b.case_battery
                    &&& a.case_open == b.case_open
                    &&& a.left_charging == b.left_charging
                    &&& a.right_charging == b.right_charging
                    &&& a.case_charging == b.case_charging
                    &&& a.in_ear_left == b.in_ear_left
                    &&& a.in_ear_right == b.in_ear_right
                    &&& a.source == b.source
                },
                (None, None) => true,
                _ => false,
            }
        }),
{
    let s = data[10];
    let t = s ^ 0x02;
    assert((s & 0x02 == 0) == !(t & 0x02 == 0)) by (bit_vector)
        requires t == s ^ 0x02;
    assert(s & 0x08 == t & 0x08) by (bit_vector)
        requires t == s ^ 0x02;
    let toggled = data.update(10, t);
    assert(spec_model_id(toggled) == spec_model_id(data));
}

} // verus!
