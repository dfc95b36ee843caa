//! Xiaomi / Redmi earbuds (vendor id 0x038F), best-effort layout:
//!
//!   byte 0 : product family (0x40..=0x6F for the earbuds seen so far)
//!   byte 5 : left bud battery (0..=100, anything else: unknown)
//!   byte 6 : right bud battery
//!   byte 7 : case battery
//!
//! The same vendor id is used by other Xiaomi peripherals, so a payload is
//! trusted only when its length and family byte look like earbuds.

use vstd::prelude::*;
use super::{Components, ComponentsView, opt_view};

verus! {

/// A battery byte is a percentage when it is at most 100.
pub open spec fn spec_battery_byte(b: u8) -> Option<u8> {
    if b <= 100 {
        Some(b)
    } else {
        None
    }
}

/// What the decoder recovers from a payload.
pub open spec fn spec_decode(data: Seq<u8>) -> Option<ComponentsView> {
    if data.len() < 8 || !(0x40 <= data[0] <= 0x6F) {
        None
    } else {
        let left = spec_battery_byte(data[5]);
        let right = spec_battery_byte(data[6]);
        let case = spec_battery_byte(data[7]);
        if left is None && right is None && case is None {
            None
        } else {
            Some(ComponentsView {
                left_battery: left,
                right_battery: right,
                case_battery: case,
                left_charging: None,
                right_charging: None,
                case_charging: None,
                in_ear_left: None,
                in_ear_right: None,
                case_open: None,
                source: "Xiaomi / Redmi TWS"@,
            })
        }
    }
}

fn read_battery(data: &[u8], i: usize) -> (r: Option<u8>)
    ensures
        i < data@.len() ==> r == spec_battery_byte(data@[i as int]),
        i >= data@.len() ==> r is None,
{
    if i >= data.len() {
        return None;
    }
    let v = data[i];
    if v == 0xFF {
        None
    } else if v <= 100 {
        Some(v)
    } else {
        None
    }
}

/// Decodes a Xiaomi / Redmi earbud payload.
pub fn decode(data: &[u8]) -> (r: Option<Components>)
    ensures
        opt_view(r) == spec_decode(data@),
{
    if data.len() < 8 {
        return None;
    }
    let family = data[0];
    if !(0x40 <= family && family <= 0x6F) {
        return None;
    }
    let left = read_battery(data, 5);
    let right = read_battery(data, 6);
    let case = read_battery(data, 7);
    if left.is_none() && right.is_none() && case.is_none() {
        return None;
    }
    Some(Components {
        left_battery: left,
        right_battery: right,
        case_battery: case,
        left_charging: None,
        right_charging: None,
        case_charging: None,
        in_ear_left: None,
        in_ear_right: None,
        case_open: None,
        source: "Xiaomi / Redmi TWS",
    })
}

/// An earbud payload (at least 8 bytes, family byte 0x40 to 0x6F) decodes
/// exactly when at least one of the left, right and case bytes (5, 6, 7) is
/// a percentage, that is at most 100; each reading is the byte itself when
/// it is a percentage and absent otherwise. Any other payload gives
/// nothing.
pub proof fn law_decode_readings(data: Seq<u8>)
    ensures
        !(data.len() >= 8 && 0x40 <= data[0] <= 0x6F) ==> spec_decode(data) is None,
        data.len() >= 8 && 0x40 <= data[0] <= 0x6F ==> {
            &&& (spec_decode(data) is Some <==> (data[5] <= 100 || data[6] <= 100 || data[7] <= 100))
            &&& spec_decode(data) matches Some(c) ==> {
                &&& (data[5] <= 100 ==> c.left_battery == Some(data[5]))
                &&& (data[5] > 100 ==> c.left_battery is None)
                &&& (data[6] <= 100 ==> c.right_battery == Some(data[6]))
                &&& (data[6] > 100 ==> c.right_battery is None)
                &&& (data[7] <= 100 ==> c.case_battery == Some(data[7]))
                &&& (data[7] > 100 ==> c.case_battery is None)
            }
        },
{
}

} // verus!
