//! The six ASTM F3411 message types: their fields, and the decoder of one
//! 25-byte message.

use vstd::prelude::*;

use crate::MESSAGE_SIZE;

verus! {

#[derive(Clone, Copy, Debug, PartialEq, Eq)]
pub enum Message {
    BasicId(BasicId),
    Location(Location),
    Auth(AuthPage),
    SelfId(SelfId),
    System(System),
    OperatorId(OperatorId),
}

#[derive(Clone, Copy, Debug, PartialEq, Eq)]
#[non_exhaustive]
pub enum DecodeError {
    NestedPack,
    UnknownType(u8),
}

#[derive(Clone, Copy, Debug, PartialEq, Eq)]
pub struct BasicId {
    pub proto_version: u8,
    pub id_type: u8,
    pub ua_type: u8,
    pub uas_id: [u8; 20],
}

#[derive(Clone, Copy, Debug, PartialEq, Eq)]
pub struct Location {
    pub proto_version: u8,
    pub status: u8,
    pub height_type: u8,
    pub ew_direction: u8,
    pub speed_mult: u8,
    pub direction_raw: u8,
    pub speed_h_raw: u8,
    pub speed_v_raw: i8,
    pub lat_e7: i32,
    pub lon_e7: i32,
    pub alt_baro_raw: u16,
    pub alt_geo_raw: u16,
    pub height_raw: u16,
    pub vert_acc: u8,
    pub horiz_acc: u8,
    pub baro_acc: u8,
    pub speed_acc: u8,
    pub timestamp_raw: u16,
    pub ts_acc: u8,
}

/// Bytes 2–24 stay raw in `data`; page-0 fields are read through accessors.
#[derive(Clone, Copy, Debug, PartialEq, Eq)]
pub struct AuthPage {
    pub proto_version: u8,
    pub auth_type: u8,
    pub data_page: u8,
    pub data: [u8; 23],
}

#[derive(Clone, Copy, Debug, PartialEq, Eq)]
pub struct SelfId {
    pub proto_version: u8,
    pub desc_type: u8,
    pub desc: [u8; 23],
}

#[derive(Clone, Copy, Debug, PartialEq, Eq)]
pub struct System {
    pub proto_version: u8,
    pub classification_type: u8,
    pub operator_location_type: u8,
    pub op_lat_e7: i32,
    pub op_lon_e7: i32,
    pub area_count: u16,
    pub area_radius_raw: u8,
    pub area_ceiling_raw: u16,
    pub area_floor_raw: u16,
    pub category_eu: u8,
    pub class_eu: u8,
    pub op_alt_geo_raw: u16,
    pub timestamp: u32,
}

#[derive(Clone, Copy, Debug, PartialEq, Eq)]
pub struct OperatorId {
    pub proto_version: u8,
    pub operator_id_type: u8,
    pub operator_id: [u8; 20],
}

// ---------------------------------------------------------------------------
// Byte-level model
// ---------------------------------------------------------------------------

/// Little-endian value of two bytes.
pub open spec fn le16(b0: u8, b1: u8) -> u16 {
    (b0 + 256 * b1) as u16
}

/// Little-endian value of four bytes.
pub open spec fn le32(b0: u8, b1: u8, b2: u8, b3: u8) -> u32 {
    (b0 + 256 * b1 + 65536 * b2 + 16777216 * b3) as u32
}

/// Little-endian `u16` stored at `m[i..i + 2]`.
pub open spec fn le16_at(m: Seq<u8>, i: int) -> u16 {
    le16(m[i], m[i + 1])
}

/// Little-endian `u32` stored at `m[i..i + 4]`.
pub open spec fn le32_at(m: Seq<u8>, i: int) -> u32 {
    le32(m[i], m[i + 1], m[i + 2], m[i + 3])
}

/// Message type: the high nibble of the first byte.
pub open spec fn msg_type(m: Seq<u8>) -> u8 {
    m[0] / 16
}

pub open spec fn basic_id_from(m: Seq<u8>, v: BasicId) -> bool {
    &&& v.proto_version == m[0] % 16
    &&& v.id_type == m[1] / 16
    &&& v.ua_type == m[1] % 16
    &&& v.uas_id@ == m.subrange(2, 22)
}

pub open spec fn location_from(m: Seq<u8>, v: Location) -> bool {
    &&& v.proto_version == m[0] % 16
    &&& v.status == m[1] / 16
    &&& v.height_type == (m[1] / 4) % 2
    &&& v.ew_direction == (m[1] / 2) % 2
    &&& v.speed_mult == m[1] % 2
    &&& v.direction_raw == m[2]
    &&& v.speed_h_raw == m[3]
    &&& v.speed_v_raw == m[4] as i8
    &&& v.lat_e7 == le32_at(m, 5) as i32
    &&& v.lon_e7 == le32_at(m, 9) as i32
    &&& v.alt_baro_raw == le16_at(m, 13)
    &&& v.alt_geo_raw == le16_at(m, 15)
    &&& v.height_raw == le16_at(m, 17)
    &&& v.vert_acc == m[19] / 16
    &&& v.horiz_acc == m[19] % 16
    &&& v.baro_acc == m[20] / 16
    &&& v.speed_acc == m[20] % 16
    &&& v.timestamp_raw == le16_at(m, 21)
    &&& v.ts_acc == m[23] % 16
}

pub open spec fn auth_from(m: Seq<u8>, v: AuthPage) -> bool {
    &&& v.proto_version == m[0] % 16
    &&& v.auth_type == m[1] / 16
    &&& v.data_page == m[1] % 16
    &&& v.data@ == m.subrange(2, 25)
}

pub open spec fn self_id_from(m: Seq<u8>, v: SelfId) -> bool {
    &&& v.proto_version == m[0] % 16
    &&& v.desc_type == m[1]
    &&& v.desc@ == m.subrange(2, 25)
}

pub open spec fn system_from(m: Seq<u8>, v: System) -> bool {
    &&& v.proto_version == m[0] % 16
    &&& v.classification_type == (m[1] / 4) % 8
    &&& v.operator_location_type == m[1] % 4
    &&& v.op_lat_e7 == le32_at(m, 2) as i32
    &&& v.op_lon_e7 == le32_at(m, 6) as i32
    &&& v.area_count == le16_at(m, 10)
    &&& v.area_radius_raw == m[12]
    &&& v.area_ceiling_raw == le16_at(m, 13)
    &&& v.area_floor_raw == le16_at(m, 15)
    &&& v.category_eu == m[17] / 16
    &&& v.class_eu == m[17] % 16
    &&& v.op_alt_geo_raw == le16_at(m, 18)
    &&& v.timestamp == le32_at(m, 20)
}

pub open spec fn operator_id_from(m: Seq<u8>, v: OperatorId) -> bool {
    &&& v.proto_version == m[0] % 16
    &&& v.operator_id_type == m[1]
    &&& v.operator_id@ == m.subrange(2, 22)
}

/// `r` is what decoding the 25 bytes `m` gives: the message type selects the
/// variant and every field is read from its place in `m`.
pub open spec fn decodes_to(m: Seq<u8>, r: Result<Message, DecodeError>) -> bool {
    match r {
        Ok(Message::BasicId(v)) => msg_type(m) == 0 && basic_id_from(m, v),
        Ok(Message::Location(v)) => msg_type(m) == 1 && location_from(m, v),
        Ok(Message::Auth(v)) => msg_type(m) == 2 && auth_from(m, v),
        Ok(Message::SelfId(v)) => msg_type(m) == 3 && self_id_from(m, v),
        Ok(Message::System(v)) => msg_type(m) == 4 && system_from(m, v),
        Ok(Message::OperatorId(v)) => msg_type(m) == 5 && operator_id_from(m, v),
        Err(DecodeError::NestedPack) => msg_type(m) == 15,
        Err(DecodeError::UnknownType(t)) => t == msg_type(m) && 6 <= t < 15,
    }
}

// ---------------------------------------------------------------------------
// Decoder
// ---------------------------------------------------------------------------

fn u16_at(m: &[u8; MESSAGE_SIZE], i: usize) -> (r: u16)
    requires
        i + 2 <= 25,
    ensures
        r == le16_at(m@, i as int),
{
    (m[i] as u16) + (m[i + 1] as u16) * 256
}

fn u32_at(m: &[u8; MESSAGE_SIZE], i: usize) -> (r: u32)
    requires
        i + 4 <= 25,
    ensures
        r == le32_at(m@, i as int),
{
    (m[i] as u32) + (m[i + 1] as u32) * 256 + (m[i + 2] as u32) * 65536 + (m[i + 3] as u32)
        * 16777216
}

/// Copies `m[start..start + dst.len()]` into `dst`.
fn copy_from(dst: &mut [u8], m: &[u8; MESSAGE_SIZE], start: usize)
    requires
        start + old(dst)@.len() <= 25,
    ensures
        final(dst)@ == m@.subrange(start as int, start + old(dst)@.len()),
{
    let n = dst.len();
    let mut k: usize = 0;
    while k < n
        invariant
            n == dst@.len(),
            n == old(dst)@.len(),
            start + n <= 25,
            k <= n,
            forall|j: int| 0 <= j < k ==> dst@[j] == m@[start + j],
        decreases n - k,
    {
        dst[k] = m[start + k];
        k = k + 1;
    }
    assert(dst@ =~= m@.subrange(start as int, start + n));
}

/// Decodes one 25-byte message. Types 0–5 always decode; type 0xF is a
/// nested pack and any other type is unknown.
pub fn decode_message(msg: &[u8; MESSAGE_SIZE]) -> (r: Result<Message, DecodeError>)
    ensures
        decodes_to(msg@, r),
{
    let m = msg;
    let proto_version = m[0] % 16;
    let hi1 = m[1] / 16;
    let lo1 = m[1] % 16;
    let t = m[0] / 16;
    if t == 0 {
        let mut uas_id = [0u8; 20];
        copy_from(&mut uas_id, m, 2);
        Ok(Message::BasicId(BasicId { proto_version, id_type: hi1, ua_type: lo1, uas_id }))
    } else if t == 1 {
        Ok(
            Message::Location(
                Location {
                    proto_version,
                    status: hi1,
                    height_type: (m[1] / 4) % 2,
                    ew_direction: (m[1] / 2) % 2,
                    speed_mult: m[1] % 2,
                    direction_raw: m[2],
                    speed_h_raw: m[3],
                    speed_v_raw: m[4] as i8,
                    lat_e7: u32_at(m, 5) as i32,
                    lon_e7: u32_at(m, 9) as i32,
                    alt_baro_raw: u16_at(m, 13),
                    alt_geo_raw: u16_at(m, 15),
                    height_raw: u16_at(m, 17),
                    vert_acc: m[19] / 16,
                    horiz_acc: m[19] % 16,
                    baro_acc: m[20] / 16,
                    speed_acc: m[20] % 16,
                    timestamp_raw: u16_at(m, 21),
                    ts_acc: m[23] % 16,
                },
            ),
        )
    } else if t == 2 {
        let mut data = [0u8; 23];
        copy_from(&mut data, m, 2);
        Ok(Message::Auth(AuthPage { proto_version, auth_type: hi1, data_page: lo1, data }))
    } else if t == 3 {
        let mut desc = [0u8; 23];
        copy_from(&mut desc, m, 2);
        Ok(Message::SelfId(SelfId { proto_version, desc_type: m[1], desc }))
    } else if t == 4 {
        Ok(
            Message::System(
                System {
                    proto_version,
                    classification_type: (m[1] / 4) % 8,
                    operator_location_type: m[1] % 4,
                    op_lat_e7: u32_at(m, 2) as i32,
                    op_lon_e7: u32_at(m, 6) as i32,
                    area_count: u16_at(m, 10),
                    area_radius_raw: m[12],
                    area_ceiling_raw: u16_at(m, 13),
                    area_floor_raw: u16_at(m, 15),
                    category_eu: m[17] / 16,
                    class_eu: m[17] % 16,
                    op_alt_geo_raw: u16_at(m, 18),
                    timestamp: u32_at(m, 20),
                },
            ),
        )
    } else if t == 5 {
        let mut operator_id = [0u8; 20];
        copy_from(&mut operator_id, m, 2);
        Ok(Message::OperatorId(OperatorId { proto_version, operator_id_type: m[1], operator_id }))
    } else if t == 0xF {
        Err(DecodeError::NestedPack)
    } else {
        Err(DecodeError::UnknownType(t))
    }
}

/// The ASTM F3411 layout of the bytes that pack two 4-bit fields: the
/// first field named is the high nibble, the second the low one. In a Basic
/// ID, byte 1 is ID type and UA type; in a Location, byte 19 is vertical and
/// horizontal accuracy and byte 20 barometric-altitude and speed accuracy;
/// in an Auth page, byte 1 is auth type and page number; in a System
/// message, byte 17 is the EU category and class. Every message's byte 0 is
/// its type and protocol version.
pub proof fn law_decoded_nibble_layout(m: Seq<u8>, r: Message)
    requires
        m.len() == 25,
        decodes_to(m, Ok(r)),
    ensures
        match r {
            Message::BasicId(v) => v.id_type < 16 && v.ua_type < 16 && m[1] == v.id_type * 16
                + v.ua_type && m[0] == 0 * 16 + v.proto_version,
            Message::Location(v) => {
                &&& v.vert_acc < 16 && v.horiz_acc < 16 && v.baro_acc < 16 && v.speed_acc < 16
                &&& m[19] == v.vert_acc * 16 + v.horiz_acc
                &&& m[20] == v.baro_acc * 16 + v.speed_acc
                &&& m[0] == 1 * 16 + v.proto_version
            },
            Message::Auth(v) => v.auth_type < 16 && v.data_page < 16 && m[1] == v.auth_type * 16
                + v.data_page && m[0] == 2 * 16 + v.proto_version,
            Message::SelfId(v) => m[0] == 3 * 16 + v.proto_version,
            Message::System(v) => v.category_eu < 16 && v.class_eu < 16 && m[17] == v.category_eu
                * 16 + v.class_eu && m[0] == 4 * 16 + v.proto_version,
            Message::OperatorId(v) => m[0] == 5 * 16 + v.proto_version,
        },
{
}

} // verus!
