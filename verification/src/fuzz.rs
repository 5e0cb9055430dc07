//! Entry points that run every decoder on arbitrary input: being verified,
//! none of them can panic.

use vstd::prelude::*;

use crate::message::{decode_message, Message};
use crate::pack::parse_pack;
use crate::MESSAGE_SIZE;

verus! {

/// Parses a pack and decodes every message in it.
pub fn touch_pack(pack: &[u8]) {
    if let Ok(msgs) = parse_pack(pack) {
        let mut msgs = msgs;
        loop
            decreases msgs.remaining().len(),
        {
            match msgs.next() {
                Some(m) => touch_message(&m),
                None => break,
            }
        }
    }
}

/// Decodes one message and reads every derived field of it.
pub fn touch_message(msg: &[u8; MESSAGE_SIZE]) {
    let m = match decode_message(msg) {
        Ok(m) => m,
        Err(_) => return,
    };
    match m {
        Message::BasicId(v) => {
            let _ = v.as_str();
        },
        Message::Location(v) => {
            let _ = (v.track_deg(), v.speed_h_quarter_mps(), v.speed_v_half_mps(), v.timestamp_ds());
            let _ = (v.latitude_e7(), v.longitude_e7());
            let _ = (v.alt_baro_half_m(), v.alt_geo_half_m(), v.height_half_m());
        },
        Message::Auth(v) => {
            let _ = (v.last_page_index(), v.length(), v.timestamp_unix_s());
        },
        Message::SelfId(v) => {
            let _ = v.as_str();
        },
        Message::System(v) => {
            let _ = (v.latitude_e7(), v.longitude_e7(), v.area_radius_m());
            let _ = (v.area_ceiling_half_m(), v.area_floor_half_m(), v.op_alt_geo_half_m());
            let _ = v.timestamp_unix_s();
        },
        Message::OperatorId(v) => {
            let _ = v.as_str();
        },
    }
}

} // verus!
