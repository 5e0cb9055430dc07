//! Encoders of the six message types, and the laws that tie them to the
//! decoder in both directions.

use vstd::prelude::*;

use crate::message::{
    auth_from, basic_id_from, decodes_to, le16, le16_at, le32, le32_at, location_from, msg_type,
    operator_id_from, self_id_from, system_from, AuthPage, BasicId, DecodeError, Location, Message,
    OperatorId, SelfId, System,
};
use crate::beacon::{spec_parse_beacon, walk_ies, BeaconError};
use crate::pack::{content_ok, pack_message, pack_messages, spec_parse_pack, PackError};
use crate::{MAX_PACK_MESSAGES, MESSAGE_SIZE};

verus! {

#[derive(Clone, Copy, Debug, PartialEq, Eq)]
pub enum EncodeError {
    BufferTooSmall,
    TooManyMessages,
}

// ---------------------------------------------------------------------------
// Byte-level model of the encoders
// ---------------------------------------------------------------------------

/// Two bytes of `x`, least significant first.
pub open spec fn le16_bytes(x: u16) -> Seq<u8> {
    seq![(x % 256) as u8, (x / 256) as u8]
}

/// Four bytes of `x`, least significant first.
pub open spec fn le32_bytes(x: u32) -> Seq<u8> {
    seq![
        (x % 256) as u8,
        ((x / 256) % 256) as u8,
        ((x / 65536) % 256) as u8,
        (x / 16777216) as u8,
    ]
}

/// The byte `(h << 4) | (l & 0x0F)`: the low nibble of `h` above that of `l`.
pub open spec fn nibbles(h: u8, l: u8) -> u8 {
    ((h % 16) * 16 + l % 16) as u8
}

pub open spec fn spec_encode_basic_id(v: BasicId) -> Seq<u8> {
    seq![nibbles(0, v.proto_version), nibbles(v.id_type, v.ua_type)] + v.uas_id@ + seq![0u8, 0u8, 0u8]
}

/// Byte 1 of a Location message.
pub open spec fn location_flags(v: Location) -> u8 {
    ((v.status % 16) * 16 + (v.height_type % 2) * 4 + (v.ew_direction % 2) * 2 + v.speed_mult
        % 2) as u8
}

pub open spec fn spec_encode_location(v: Location) -> Seq<u8> {
    seq![
        nibbles(1, v.proto_version),
        location_flags(v),
        v.direction_raw,
        v.speed_h_raw,
        v.speed_v_raw as u8,
    ] + le32_bytes(v.lat_e7 as u32) + le32_bytes(v.lon_e7 as u32) + le16_bytes(v.alt_baro_raw)
        + le16_bytes(v.alt_geo_raw) + le16_bytes(v.height_raw) + seq![
        nibbles(v.vert_acc, v.horiz_acc),
        nibbles(v.baro_acc, v.speed_acc),
    ] + le16_bytes(v.timestamp_raw) + seq![v.ts_acc % 16, 0u8]
}

pub open spec fn spec_encode_auth(v: AuthPage) -> Seq<u8> {
    seq![nibbles(2, v.proto_version), nibbles(v.auth_type, v.data_page)] + v.data@
}

pub open spec fn spec_encode_self_id(v: SelfId) -> Seq<u8> {
    seq![nibbles(3, v.proto_version), v.desc_type] + v.desc@
}

/// Byte 1 of a System message.
pub open spec fn system_flags(v: System) -> u8 {
    ((v.classification_type % 8) * 4 + v.operator_location_type % 4) as u8
}

pub open spec fn spec_encode_system(v: System) -> Seq<u8> {
    seq![nibbles(4, v.proto_version), system_flags(v)] + le32_bytes(v.op_lat_e7 as u32)
        + le32_bytes(v.op_lon_e7 as u32) + le16_bytes(v.area_count) + seq![v.area_radius_raw]
        + le16_bytes(v.area_ceiling_raw) + le16_bytes(v.area_floor_raw) + seq![
        nibbles(v.category_eu, v.class_eu),
    ] + le16_bytes(v.op_alt_geo_raw) + le32_bytes(v.timestamp) + seq![0u8]
}

pub open spec fn spec_encode_operator_id(v: OperatorId) -> Seq<u8> {
    seq![nibbles(5, v.proto_version), v.operator_id_type] + v.operator_id@ + seq![0u8, 0u8, 0u8]
}

/// The encoding of any message, by its variant.
pub open spec fn spec_encode_message(msg: Message) -> Seq<u8> {
    match msg {
        Message::BasicId(v) => spec_encode_basic_id(v),
        Message::Location(v) => spec_encode_location(v),
        Message::Auth(v) => spec_encode_auth(v),
        Message::SelfId(v) => spec_encode_self_id(v),
        Message::System(v) => spec_encode_system(v),
        Message::OperatorId(v) => spec_encode_operator_id(v),
    }
}

// ---------------------------------------------------------------------------
// Encoders
// ---------------------------------------------------------------------------

fn header(ty: u8, version: u8) -> (r: u8)
    requires
        ty < 16,
    ensures
        r == nibbles(ty, version),
{
    ty * 16 + version % 16
}

fn put_u16(m: &mut [u8; MESSAGE_SIZE], at: usize, x: u16)
    requires
        at + 2 <= 25,
    ensures
        final(m)@ == old(m)@.update(at as int, le16_bytes(x)[0]).update(at + 1, le16_bytes(x)[1]),
{
    m[at] = (x % 256) as u8;
    m[at + 1] = (x / 256) as u8;
}

fn put_u32(m: &mut [u8; MESSAGE_SIZE], at: usize, x: u32)
    requires
        at + 4 <= 25,
    ensures
        final(m)@ == old(m)@.update(at as int, le32_bytes(x)[0]).update(at + 1, le32_bytes(x)[1]).update(
            at + 2,
            le32_bytes(x)[2],
        ).update(at + 3, le32_bytes(x)[3]),
{
    m[at] = (x % 256) as u8;
    m[at + 1] = ((x / 256) % 256) as u8;
    m[at + 2] = ((x / 65536) % 256) as u8;
    m[at + 3] = (x / 16777216) as u8;
}

/// Copies `b` into `m` from `at` on.
fn put(m: &mut [u8; MESSAGE_SIZE], at: usize, b: &[u8])
    requires
        at + b@.len() <= 25,
    ensures
        final(m)@ == old(m)@.subrange(0, at as int) + b@ + old(m)@.subrange(
            at + b@.len(),
            25,
        ),
{
    let n = b.len();
    let mut k: usize = 0;
    while k < n
        invariant
            n == b@.len(),
            at + n <= 25,
            k <= n,
            m@.len() == 25,
            forall|j: int| 0 <= j < at ==> m@[j] == old(m)@[j],
            forall|j: int| at + n <= j < 25 ==> m@[j] == old(m)@[j],
            forall|j: int| 0 <= j < k ==> m@[at + j] == b@[j],
        decreases n - k,
    {
        m[at + k] = b[k];
        k = k + 1;
    }
    assert(m@ =~= old(m)@.subrange(0, at as int) + b@ + old(m)@.subrange(at + n, 25));
}

pub fn encode_basic_id(v: &BasicId) -> (m: [u8; MESSAGE_SIZE])
    ensures
        m@ == spec_encode_basic_id(*v),
{
    let mut m = [0u8; 25];
    m[0] = header(0, v.proto_version);
    m[1] = (v.id_type % 16) * 16 + v.ua_type % 16;
    put(&mut m, 2, &v.uas_id);
    assert(m@ =~= spec_encode_basic_id(*v));
    m
}

pub fn encode_location(v: &Location) -> (m: [u8; MESSAGE_SIZE])
    ensures
        m@ == spec_encode_location(*v),
{
    let mut m = [0u8; 25];
    m[0] = header(1, v.proto_version);
    m[1] = (v.status % 16) * 16 + (v.height_type % 2) * 4 + (v.ew_direction % 2) * 2 + v.speed_mult
        % 2;
    m[2] = v.direction_raw;
    m[3] = v.speed_h_raw;
    m[4] = v.speed_v_raw as u8;
    put_u32(&mut m, 5, v.lat_e7 as u32);
    put_u32(&mut m, 9, v.lon_e7 as u32);
    put_u16(&mut m, 13, v.alt_baro_raw);
    put_u16(&mut m, 15, v.alt_geo_raw);
    put_u16(&mut m, 17, v.height_raw);
    m[19] = (v.vert_acc % 16) * 16 + v.horiz_acc % 16;
    m[20] = (v.baro_acc % 16) * 16 + v.speed_acc % 16;
    put_u16(&mut m, 21, v.timestamp_raw);
    m[23] = v.ts_acc % 16;
    assert(m@ =~= spec_encode_location(*v));
    m
}

pub fn encode_auth(v: &AuthPage) -> (m: [u8; MESSAGE_SIZE])
    ensures
        m@ == spec_encode_auth(*v),
{
    let mut m = [0u8; 25];
    m[0] = header(2, v.proto_version);
    m[1] = (v.auth_type % 16) * 16 + v.data_page % 16;
    put(&mut m, 2, &v.data);
    assert(m@ =~= spec_encode_auth(*v));
    m
}

pub fn encode_self_id(v: &SelfId) -> (m: [u8; MESSAGE_SIZE])
    ensures
        m@ == spec_encode_self_id(*v),
{
    let mut m = [0u8; 25];
    m[0] = header(3, v.proto_version);
    m[1] = v.desc_type;
    put(&mut m, 2, &v.desc);
    assert(m@ =~= spec_encode_self_id(*v));
    m
}

pub fn encode_system(v: &System) -> (m: [u8; MESSAGE_SIZE])
    ensures
        m@ == spec_encode_system(*v),
{
    let mut m = [0u8; 25];
    m[0] = header(4, v.proto_version);
    m[1] = (v.classification_type % 8) * 4 + v.operator_location_type % 4;
    put_u32(&mut m, 2, v.op_lat_e7 as u32);
    put_u32(&mut m, 6, v.op_lon_e7 as u32);
    put_u16(&mut m, 10, v.area_count);
    m[12] = v.area_radius_raw;
    put_u16(&mut m, 13, v.area_ceiling_raw);
    put_u16(&mut m, 15, v.area_floor_raw);
    m[17] = (v.category_eu % 16) * 16 + v.class_eu % 16;
    put_u16(&mut m, 18, v.op_alt_geo_raw);
    put_u32(&mut m, 20, v.timestamp);
    assert(m@ =~= spec_encode_system(*v));
    m
}

pub fn encode_operator_id(v: &OperatorId) -> (m: [u8; MESSAGE_SIZE])
    ensures
        m@ == spec_encode_operator_id(*v),
{
    let mut m = [0u8; 25];
    m[0] = header(5, v.proto_version);
    m[1] = v.operator_id_type;
    put(&mut m, 2, &v.operator_id);
    assert(m@ =~= spec_encode_operator_id(*v));
    m
}


// ---------------------------------------------------------------------------
// Laws: encoding and decoding undo each other
// ---------------------------------------------------------------------------

/// Every field fits the bits that the wire format gives it.
pub open spec fn message_well_formed(msg: Message) -> bool {
    match msg {
        Message::BasicId(v) => v.proto_version < 16 && v.id_type < 16 && v.ua_type < 16,
        Message::Location(v) => {
            &&& v.proto_version < 16
            &&& v.status < 16
            &&& v.height_type < 2
            &&& v.ew_direction < 2
            &&& v.speed_mult < 2
            &&& v.vert_acc < 16
            &&& v.horiz_acc < 16
            &&& v.baro_acc < 16
            &&& v.speed_acc < 16
            &&& v.ts_acc < 16
        },
        Message::Auth(v) => v.proto_version < 16 && v.auth_type < 16 && v.data_page < 16,
        Message::SelfId(v) => v.proto_version < 16,
        Message::System(v) => {
            &&& v.proto_version < 16
            &&& v.classification_type < 8
            &&& v.operator_location_type < 4
            &&& v.category_eu < 16
            &&& v.class_eu < 16
        },
        Message::OperatorId(v) => v.proto_version < 16,
    }
}

/// The bits that no field of the message's type reads are zero.
pub open spec fn reserved_clear(m: Seq<u8>) -> bool {
    let t = msg_type(m);
    if t == 0 || t == 5 {
        m[22] == 0 && m[23] == 0 && m[24] == 0
    } else if t == 1 {
        (m[1] / 8) % 2 == 0 && m[23] / 16 == 0 && m[24] == 0
    } else if t == 4 {
        m[1] / 32 == 0 && m[24] == 0
    } else {
        true
    }
}

proof fn lemma_le16(x: u16)
    ensures
        le16(le16_bytes(x)[0], le16_bytes(x)[1]) == x,
{
}

pub(crate) proof fn lemma_le32(x: u32)
    ensures
        le32(le32_bytes(x)[0], le32_bytes(x)[1], le32_bytes(x)[2], le32_bytes(x)[3]) == x,
{
    assert(x % 256 + 256 * ((x / 256) % 256) + 65536 * ((x / 65536) % 256) + 16777216 * (x
        / 16777216) == x) by (bit_vector);
}

proof fn lemma_le16_bytes_at(m: Seq<u8>, i: int)
    requires
        0 <= i,
        i + 2 <= m.len(),
    ensures
        le16_bytes(le16_at(m, i)) == m.subrange(i, i + 2),
{
    let b0 = m[i];
    let b1 = m[i + 1];
    let x = le16_at(m, i);
    assert(x == b0 + 256 * b1);
    assert(le16_bytes(x) =~= m.subrange(i, i + 2));
}

pub(crate) proof fn lemma_le32_bytes_at(m: Seq<u8>, i: int)
    requires
        0 <= i,
        i + 4 <= m.len(),
    ensures
        le32_bytes(le32_at(m, i)) == m.subrange(i, i + 4),
{
    let b0 = m[i];
    let b1 = m[i + 1];
    let b2 = m[i + 2];
    let b3 = m[i + 3];
    let x = le32_at(m, i);
    assert(x == b0 + 256 * b1 + 65536 * b2 + 16777216 * b3);
    assert(x % 256 == b0 && (x / 256) % 256 == b1 && (x / 65536) % 256 == b2 && x / 16777216
        == b3) by (nonlinear_arith)
        requires
            x == b0 + 256 * b1 + 65536 * b2 + 16777216 * b3,
            b0 < 256,
            b1 < 256,
            b2 < 256,
            b3 < 256,
    ;
    assert(le32_bytes(x) =~= m.subrange(i, i + 4));
}

pub(crate) proof fn lemma_signed_casts(x: i32, y: u32, a: i8, b: u8)
    ensures
        (x as u32) as i32 == x,
        (y as i32) as u32 == y,
        (a as u8) as i8 == a,
        (b as i8) as u8 == b,
{
    assert((x as u32) as i32 == x) by (bit_vector);
    assert((y as i32) as u32 == y) by (bit_vector);
    assert((a as u8) as i8 == a) by (bit_vector);
    assert((b as i8) as u8 == b) by (bit_vector);
}

proof fn lemma_nibbles(h: u8, l: u8)
    ensures
        nibbles(h, l) / 16 == h % 16,
        nibbles(h, l) % 16 == l % 16,
{
}

proof fn lemma_split_byte(b: u8)
    ensures
        nibbles(b / 16, b % 16) == b,
{
}

#[verifier::spinoff_prover]
#[verifier::rlimit(40)]
proof fn lemma_location_roundtrip(v: Location)
    requires
        message_well_formed(Message::Location(v)),
    ensures
        spec_encode_location(v).len() == 25,
        msg_type(spec_encode_location(v)) == 1,
        location_from(spec_encode_location(v), v),
{
    let m = spec_encode_location(v);
    lemma_nibbles(1, v.proto_version);
    lemma_nibbles(v.vert_acc, v.horiz_acc);
    lemma_nibbles(v.baro_acc, v.speed_acc);
    lemma_le32(v.lat_e7 as u32);
    lemma_le32(v.lon_e7 as u32);
    lemma_le16(v.alt_baro_raw);
    lemma_le16(v.alt_geo_raw);
    lemma_le16(v.height_raw);
    lemma_le16(v.timestamp_raw);
    lemma_signed_casts(v.lat_e7, 0, v.speed_v_raw, 0);
    lemma_signed_casts(v.lon_e7, 0, 0, 0);
    assert(m[5] == le32_bytes(v.lat_e7 as u32)[0]);
    assert(le32_at(m, 5) == v.lat_e7 as u32);
    assert(le32_at(m, 9) == v.lon_e7 as u32);
    assert(le16_at(m, 13) == v.alt_baro_raw);
    assert(le16_at(m, 15) == v.alt_geo_raw);
    assert(le16_at(m, 17) == v.height_raw);
    assert(le16_at(m, 21) == v.timestamp_raw);
    assert(location_from(m, v));
}

#[verifier::spinoff_prover]
#[verifier::rlimit(40)]
proof fn lemma_system_roundtrip(v: System)
    requires
        message_well_formed(Message::System(v)),
    ensures
        spec_encode_system(v).len() == 25,
        msg_type(spec_encode_system(v)) == 4,
        system_from(spec_encode_system(v), v),
{
    let m = spec_encode_system(v);
    lemma_nibbles(4, v.proto_version);
    lemma_nibbles(v.category_eu, v.class_eu);
    lemma_le32(v.op_lat_e7 as u32);
    lemma_le32(v.op_lon_e7 as u32);
    lemma_le32(v.timestamp);
    lemma_le16(v.area_count);
    lemma_le16(v.area_ceiling_raw);
    lemma_le16(v.area_floor_raw);
    lemma_le16(v.op_alt_geo_raw);
    lemma_signed_casts(v.op_lat_e7, 0, 0, 0);
    lemma_signed_casts(v.op_lon_e7, 0, 0, 0);
    assert(le32_at(m, 2) == v.op_lat_e7 as u32);
    assert(le32_at(m, 6) == v.op_lon_e7 as u32);
    assert(le16_at(m, 10) == v.area_count);
    assert(le16_at(m, 13) == v.area_ceiling_raw);
    assert(le16_at(m, 15) == v.area_floor_raw);
    assert(le16_at(m, 18) == v.op_alt_geo_raw);
    assert(le32_at(m, 20) == v.timestamp);
    assert(system_from(m, v));
}

/// Decoding the encoding of a well-formed message gives that message back.
pub proof fn law_decode_encode(msg: Message)
    requires
        message_well_formed(msg),
    ensures
        spec_encode_message(msg).len() == 25,
        decodes_to(spec_encode_message(msg), Ok(msg)),
{
    let m = spec_encode_message(msg);
    match msg {
        Message::BasicId(v) => {
            lemma_nibbles(0, v.proto_version);
            lemma_nibbles(v.id_type, v.ua_type);
            assert(v.uas_id@ =~= m.subrange(2, 22));
        },
        Message::Location(v) => lemma_location_roundtrip(v),
        Message::Auth(v) => {
            lemma_nibbles(2, v.proto_version);
            lemma_nibbles(v.auth_type, v.data_page);
            assert(v.data@ =~= m.subrange(2, 25));
        },
        Message::SelfId(v) => {
            lemma_nibbles(3, v.proto_version);
            assert(v.desc@ =~= m.subrange(2, 25));
        },
        Message::System(v) => lemma_system_roundtrip(v),
        Message::OperatorId(v) => {
            lemma_nibbles(5, v.proto_version);
            assert(v.operator_id@ =~= m.subrange(2, 22));
        },
    }
}

/// Encoding what 25 bytes decode to gives those bytes back, when the bits
/// that no field reads are clear.
pub proof fn law_encode_decode(m: Seq<u8>, msg: Message)
    requires
        m.len() == 25,
        decodes_to(m, Ok(msg)),
        reserved_clear(m),
    ensures
        spec_encode_message(msg) == m,
{
    let e = spec_encode_message(msg);
    lemma_split_byte(m[0]);
    lemma_split_byte(m[1]);
    match msg {
        Message::BasicId(v) => {
            assert(e =~= m);
        },
        Message::Location(v) => {
            lemma_split_byte(m[19]);
            lemma_split_byte(m[20]);
            lemma_le32_bytes_at(m, 5);
            lemma_le32_bytes_at(m, 9);
            lemma_le16_bytes_at(m, 13);
            lemma_le16_bytes_at(m, 15);
            lemma_le16_bytes_at(m, 17);
            lemma_le16_bytes_at(m, 21);
            lemma_signed_casts(0, le32_at(m, 5), 0, m[4]);
            lemma_signed_casts(0, le32_at(m, 9), 0, 0);
            let b1 = m[1];
            assert(b1 / 8 % 2 == 0 ==> b1 == (b1 / 16) * 16 + ((b1 / 4) % 2) * 4 + ((b1 / 2) % 2) * 2
                + b1 % 2) by (nonlinear_arith);
            assert(e =~= m);
        },
        Message::Auth(v) => {
            assert(e =~= m);
        },
        Message::SelfId(v) => {
            assert(e =~= m);
        },
        Message::System(v) => {
            lemma_split_byte(m[17]);
            lemma_le32_bytes_at(m, 2);
            lemma_le32_bytes_at(m, 6);
            lemma_le16_bytes_at(m, 10);
            lemma_le16_bytes_at(m, 13);
            lemma_le16_bytes_at(m, 15);
            lemma_le16_bytes_at(m, 18);
            lemma_le32_bytes_at(m, 20);
            lemma_signed_casts(0, le32_at(m, 2), 0, 0);
            lemma_signed_casts(0, le32_at(m, 6), 0, 0);
            let b1 = m[1];
            assert(b1 / 32 == 0 ==> b1 == ((b1 / 4) % 8) * 4 + b1 % 4) by (nonlinear_arith);
            assert(e =~= m);
        },
        Message::OperatorId(v) => {
            assert(e =~= m);
        },
    }
}

/// What 25 bytes decode to is determined by the bytes: decoding is a function.
pub proof fn law_decode_unique(
    m: Seq<u8>,
    r1: Result<Message, DecodeError>,
    r2: Result<Message, DecodeError>,
)
    requires
        decodes_to(m, r1),
        decodes_to(m, r2),
    ensures
        r1 == r2,
{
    broadcast use vstd::array::group_array_axioms;

    match (r1, r2) {
        (Ok(Message::BasicId(a)), Ok(Message::BasicId(b))) => {
            assert(a.uas_id =~= b.uas_id);
        },
        (Ok(Message::Auth(a)), Ok(Message::Auth(b))) => {
            assert(a.data =~= b.data);
        },
        (Ok(Message::SelfId(a)), Ok(Message::SelfId(b))) => {
            assert(a.desc =~= b.desc);
        },
        (Ok(Message::OperatorId(a)), Ok(Message::OperatorId(b))) => {
            assert(a.operator_id =~= b.operator_id);
        },
        _ => {},
    }
}

/// Every value the decoder produces fits its wire fields.
pub proof fn law_decoded_well_formed(m: Seq<u8>, msg: Message)
    requires
        decodes_to(m, Ok(msg)),
    ensures
        message_well_formed(msg),
{
}

// ---------------------------------------------------------------------------
// Packs and beacons
// ---------------------------------------------------------------------------

/// The bytes of the messages `ms`, one after the other.
pub open spec fn flatten(ms: Seq<[u8; 25]>) -> Seq<u8>
    decreases ms.len(),
{
    if ms.len() == 0 {
        seq![]
    } else {
        flatten(ms.drop_last()) + ms.last()@
    }
}

/// A protocol-version-2 pack of the messages `ms`.
pub open spec fn spec_pack_bytes(ms: Seq<[u8; 25]>) -> Seq<u8> {
    seq![0xF2u8, 25u8, ms.len() as u8] + flatten(ms)
}

/// The views of the messages `ms`.
pub open spec fn message_views(ms: Seq<[u8; 25]>) -> Seq<Seq<u8>> {
    ms.map_values(|m: [u8; 25]| m@)
}

proof fn lemma_flatten(ms: Seq<[u8; 25]>)
    ensures
        flatten(ms).len() == 25 * ms.len(),
        forall|i: int| #![auto] 0 <= i < ms.len() ==> flatten(ms).subrange(25 * i, 25 * i + 25) == ms[i]@,
    decreases ms.len(),
{
    broadcast use vstd::array::group_array_axioms;

    if ms.len() > 0 {
        let init = ms.drop_last();
        lemma_flatten(init);
        let f = flatten(ms);
        assert(ms.last()@.len() == 25);
        assert(f.len() == 25 * ms.len());
        assert forall|i: int| #![auto] 0 <= i < ms.len() implies f.subrange(25 * i, 25 * i + 25)
            == ms[i]@ by {
            if i < init.len() {
                assert(f.subrange(25 * i, 25 * i + 25) =~= flatten(init).subrange(25 * i, 25 * i + 25));
                assert(flatten(init).subrange(25 * i, 25 * i + 25) == init[i]@);
                assert(init[i] == ms[i]);
            } else {
                assert(ms.last() == ms[i]);
                assert(f.subrange(25 * i, 25 * i + 25) =~= ms.last()@);
            }
        }
    }
}

/// Writes a protocol-version-2 pack header followed by `msgs`.
pub fn build_pack(msgs: &[[u8; MESSAGE_SIZE]], out: &mut [u8]) -> (r: Result<usize, EncodeError>)
    ensures
        final(out)@.len() == old(out)@.len(),
        msgs@.len() > 9 ==> r == Err::<usize, EncodeError>(EncodeError::TooManyMessages) && final(out)@ == old(out)@,
        msgs@.len() <= 9 && old(out)@.len() < 3 ==> r == Err::<usize, EncodeError>(
            EncodeError::BufferTooSmall,
        ) && final(out)@ == old(out)@,
        msgs@.len() <= 9 && 3 <= old(out)@.len() < 3 + 25 * msgs@.len() ==> r == Err::<
            usize,
            EncodeError,
        >(EncodeError::BufferTooSmall) && final(out)@ == spec_pack_bytes(msgs@).take(3) + old(out)@.skip(3),
        msgs@.len() <= 9 && old(out)@.len() >= 3 + 25 * msgs@.len() ==> r == Ok::<
            usize,
            EncodeError,
        >((3 + 25 * msgs@.len()) as usize) && final(out)@ == spec_pack_bytes(msgs@) + old(out)@.skip(3 + 25 * msgs@.len() as int),
{
    let n = msgs.len();
    if n > MAX_PACK_MESSAGES {
        return Err(EncodeError::TooManyMessages);
    }
    let len = out.len();
    if len < 3 {
        return Err(EncodeError::BufferTooSmall);
    }
    out[0] = 0xF2;
    out[1] = MESSAGE_SIZE as u8;
    out[2] = n as u8;
    proof {
        lemma_flatten(msgs@);
    }
    let ghost head = spec_pack_bytes(msgs@).take(3);
    assert(out@ =~= head + old(out)@.skip(3));
    if len - 3 < 25 * n {
        return Err(EncodeError::BufferTooSmall);
    }
    let ghost bytes = spec_pack_bytes(msgs@);
    let mut i: usize = 0;
    while i < n
        invariant
            n == msgs@.len(),
            n <= 9,
            len == out@.len(),
            len == old(out)@.len(),
            len >= 3 + 25 * n,
            bytes == spec_pack_bytes(msgs@),
            bytes.len() == 3 + 25 * n,
            forall|k: int| #![auto] 0 <= k < n ==> bytes.subrange(3 + 25 * k, 28 + 25 * k)
                == msgs@[k]@,
            i <= n,
            forall|k: int| 0 <= k < 3 + 25 * i ==> out@[k] == bytes[k],
            forall|k: int| 3 + 25 * n <= k < len ==> out@[k] == old(out)@[k],
        decreases n - i,
    {
        let m = &msgs[i];
        let base = 3 + 25 * i;
        assert(bytes.subrange(base as int, base + 25) == m@);
        let mut j: usize = 0;
        while j < 25
            invariant
                n == msgs@.len(),
                len == out@.len(),
                len >= 3 + 25 * n,
                i < n,
                base == 3 + 25 * i,
                bytes.subrange(base as int, base + 25) == m@,
                j <= 25,
                forall|k: int| 0 <= k < base ==> out@[k] == bytes[k],
                forall|k: int| 0 <= k < j ==> out@[base + k] == m@[k],
                forall|k: int| 3 + 25 * n <= k < len ==> out@[k] == old(out)@[k],
            decreases 25 - j,
        {
            out[base + j] = m[j];
            j = j + 1;
        }
        assert forall|k: int| 0 <= k < 3 + 25 * (i + 1) implies out@[k] == bytes[k] by {
            if k >= base {
                assert(bytes[k] == bytes.subrange(base as int, base + 25)[k - base]);
            }
        }
        i = i + 1;
    }
    assert(out@ =~= bytes + old(out)@.skip(3 + 25 * n));
    Ok(3 + 25 * n)
}

/// Parsing a pack built from one to nine messages that keep the per-type
/// limits gives those messages back.
pub proof fn law_parse_built_pack(ms: Seq<[u8; 25]>)
    requires
        1 <= ms.len() <= 9,
        content_ok(message_views(ms)),
    ensures
        spec_parse_pack(spec_pack_bytes(ms)) == Ok::<Seq<Seq<u8>>, PackError>(message_views(ms)),
{
    lemma_flatten(ms);
    let p = spec_pack_bytes(ms);
    assert(p[2] == ms.len());
    assert forall|i: int| 0 <= i < ms.len() implies pack_message(p, i) == ms[i]@ by {
        assert(pack_message(p, i) =~= flatten(ms).subrange(25 * i, 25 * i + 25));
    }
    assert(pack_messages(p) =~= message_views(ms));
}

/// The 43 bytes before the pack of a beacon: frame control 0x80, broadcast
/// destination, `mac` as source and BSSID, then the Remote ID element header.
pub open spec fn beacon_header(mac: Seq<u8>, counter: u8, pack_len: nat) -> Seq<u8> {
    seq![0x80u8, 0u8, 0u8, 0u8] + seq![0xFFu8, 0xFFu8, 0xFFu8, 0xFFu8, 0xFFu8, 0xFFu8] + mac + mac
        + Seq::new(14, |i: int| 0u8) + seq![
        0xDDu8,
        (pack_len + 5) as u8,
        0xFAu8,
        0x0Bu8,
        0xBCu8,
        0x0Du8,
        counter,
    ]
}

/// Minimal beacon: fixed header with SA = BSSID = `mac`, then only the
/// Remote ID element.
pub fn build_beacon(mac: [u8; 6], counter: u8, pack: &[u8], out: &mut [u8]) -> (r: Result<
    usize,
    EncodeError,
>)
    ensures
        final(out)@.len() == old(out)@.len(),
        pack@.len() + 5 > 255 || old(out)@.len() < 43 ==> r == Err::<usize, EncodeError>(
            EncodeError::BufferTooSmall,
        ) && final(out)@ == old(out)@,
        pack@.len() + 5 <= 255 && 43 <= old(out)@.len() < 43 + pack@.len() ==> r == Err::<
            usize,
            EncodeError,
        >(EncodeError::BufferTooSmall) && final(out)@ == beacon_header(mac@, counter, pack@.len())
            + old(out)@.skip(43),
        pack@.len() + 5 <= 255 && old(out)@.len() >= 43 + pack@.len() ==> r == Ok::<
            usize,
            EncodeError,
        >((43 + pack@.len()) as usize) && final(out)@ == beacon_header(mac@, counter, pack@.len())
            + pack@ + old(out)@.skip(43 + pack@.len() as int),
{
    let plen = pack.len();
    if plen > 250 {
        return Err(EncodeError::BufferTooSmall);
    }
    let len = out.len();
    if len < 43 {
        return Err(EncodeError::BufferTooSmall);
    }
    let ghost head = beacon_header(mac@, counter, plen as nat);
    let mut k: usize = 0;
    while k < 43
        invariant
            len == out@.len(),
            len == old(out)@.len(),
            len >= 43,
            plen == pack@.len(),
            plen <= 250,
            head == beacon_header(mac@, counter, plen as nat),
            k <= 43,
            forall|j: int| 0 <= j < k ==> out@[j] == head[j],
            forall|j: int| 43 <= j < len ==> out@[j] == old(out)@[j],
        decreases 43 - k,
    {
        let b: u8 = if k == 0 {
            0x80
        } else if 4 <= k && k < 10 {
            0xFF
        } else if 10 <= k && k < 16 {
            mac[k - 10]
        } else if 16 <= k && k < 22 {
            mac[k - 16]
        } else if k == 36 {
            0xDD
        } else if k == 37 {
            (plen + 5) as u8
        } else if k == 38 {
            0xFA
        } else if k == 39 {
            0x0B
        } else if k == 40 {
            0xBC
        } else if k == 41 {
            0x0D
        } else if k == 42 {
            counter
        } else {
            0
        };
        assert(b == head[k as int]);
        out[k] = b;
        k = k + 1;
    }
    assert(out@ =~= head + old(out)@.skip(43));
    if len - 43 < plen {
        return Err(EncodeError::BufferTooSmall);
    }
    let mut j: usize = 0;
    while j < plen
        invariant
            len == out@.len(),
            len == old(out)@.len(),
            plen == pack@.len(),
            len >= 43 + plen,
            j <= plen,
            forall|i: int| 0 <= i < 43 ==> out@[i] == head[i],
            forall|i: int| 0 <= i < j ==> out@[43 + i] == pack@[i],
            forall|i: int| 43 + plen <= i < len ==> out@[i] == old(out)@[i],
        decreases plen - j,
    {
        out[43 + j] = pack[j];
        j = j + 1;
    }
    assert(out@ =~= head + pack@ + old(out)@.skip(43 + plen));
    Ok(43 + plen)
}

/// Parsing a beacon built from a MAC, a counter and a pack of at most 250
/// bytes gives them back.
pub proof fn law_parse_built_beacon(mac: [u8; 6], counter: u8, pack: Seq<u8>)
    requires
        pack.len() + 5 <= 255,
    ensures
        spec_parse_beacon(beacon_header(mac@, counter, pack.len()) + pack) == Ok::<
            (Seq<u8>, u8, Seq<u8>),
            BeaconError,
        >((mac@, counter, pack)),
{
    let b = beacon_header(mac@, counter, pack.len()) + pack;
    assert(b.len() == 43 + pack.len());
    assert(b[36] == 0xDD && b[37] == pack.len() + 5);
    assert(b[38] == 0xFA && b[39] == 0x0B && b[40] == 0xBC && b[41] == 0x0D && b[42] == counter);
    assert(walk_ies(b, 36) == Ok::<(u8, int, int), BeaconError>((counter, 43, b.len() as int)));
    assert(b.subrange(10, 16) =~= mac@);
    assert(b.subrange(43, b.len() as int) =~= pack);
}

/// Encoding puts each pair of 4-bit fields in its byte as ASTM F3411 lays
/// it out, the first field in the high nibble: a Location's vertical and
/// horizontal accuracy in byte 19 and barometric-altitude and speed accuracy
/// in byte 20, a Basic ID's ID type and UA type in byte 1, an Auth page's
/// auth type and page in byte 1, a System message's EU category and class
/// in byte 17, and the type and protocol version in byte 0.
#[verifier::spinoff_prover]
#[verifier::rlimit(40)]
pub proof fn law_encoded_nibble_layout(msg: Message)
    requires
        message_well_formed(msg),
    ensures
        ({
            let m = spec_encode_message(msg);
            match msg {
                Message::BasicId(v) => m[1] == v.id_type * 16 + v.ua_type && m[0]
                    == v.proto_version,
                Message::Location(v) => {
                    &&& m[19] == v.vert_acc * 16 + v.horiz_acc
                    &&& m[20] == v.baro_acc * 16 + v.speed_acc
                    &&& m[0] == 16 + v.proto_version
                },
                Message::Auth(v) => m[1] == v.auth_type * 16 + v.data_page && m[0] == 32
                    + v.proto_version,
                Message::SelfId(v) => m[0] == 48 + v.proto_version,
                Message::System(v) => m[17] == v.category_eu * 16 + v.class_eu && m[0] == 64
                    + v.proto_version,
                Message::OperatorId(v) => m[0] == 80 + v.proto_version,
            }
        }),
{
    let m = spec_encode_message(msg);
    match msg {
        Message::Location(v) => {
            assert(m[19] == nibbles(v.vert_acc, v.horiz_acc));
            assert(m[20] == nibbles(v.baro_acc, v.speed_acc));
        },
        Message::System(v) => {
            assert(m[17] == nibbles(v.category_eu, v.class_eu));
        },
        _ => {},
    }
}

} // verus!
