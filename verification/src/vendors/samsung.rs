//! Samsung Galaxy Buds (vendor id 0x0075), deliberately conservative.
//!
//! The byte offsets differ between Buds models and no payload layout has
//! been confirmed yet, so the decoder recognises the header of the payloads
//! seen so far and still declines to decode them. It stays in the dispatch
//! so that confirmed offsets can be added here without touching it.

use vstd::prelude::*;
use super::Components;

verus! {

/// Decodes a Galaxy Buds payload: no layout is trusted yet, so nothing is
/// recovered from any payload.
pub fn decode(data: &[u8]) -> (r: Option<Components>)
    ensures
        r is None,
{
    if data.len() < 12 || data[0] != 0x01 {
        return None;
    }
    None
}

} // verus!
