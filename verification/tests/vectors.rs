use rid_pocket::beacon::{parse_beacon, BeaconError};
use rid_pocket::encode::{
    build_beacon, build_pack, encode_auth, encode_basic_id, encode_location, encode_operator_id,
    encode_self_id, encode_system,
};
use rid_pocket::message::{decode_message, DecodeError, Location, Message};
use rid_pocket::pack::{parse_pack, PackError};
use rid_pocket::ODID_EPOCH_UNIX_S;

fn hex(s: &str) -> Vec<u8> {
    let s = s.trim();
    (0..s.len())
        .step_by(2)
        .map(|i| u8::from_str_radix(&s[i..i + 2], 16).unwrap())
        .collect()
}

fn msg(s: &str) -> [u8; 25] {
    hex(s).try_into().unwrap()
}

const BASIC_ID: &str = "0212524944504f434b45542d544553542d3030303100000000";
const LOCATION: &str = "12205a14028074d21ac0282db8f308fc0834084a3339300200";
const SELF_ID: &str = "320042656e6368207465737400000000000000000000000000";
const SYSTEM: &str = "4201209af81a200307b80100000000000000980880ba890e00";
const OPERATOR_ID: &str = "52004f502d544553542d303030310000000000000000000000";
const AUTH_P0: &str = "2210001180ba890e0102030405060708090a0b0c0d0e0f1011";
const PACK: &str = "f21905\
        0212524944504f434b45542d544553542d3030303100000000\
        12205a14028074d21ac0282db8f308fc0834084a3339300200\
        320042656e6368207465737400000000000000000000000000\
        4201209af81a200307b80100000000000000980880ba890e00\
        52004f502d544553542d303030310000000000000000000000";

/// A beacon MPDU from 02:11:22:33:44:55: fixed header, SSID, rates and DS
/// elements, then the Remote ID element (counter 0x2A) carrying `PACK`.
fn beacon() -> Vec<u8> {
    let mut b = hex("80000000ffffffffffff021122334455021122334455\
        1000\
        0000000000000000\
        6400\
        0104\
        0000\
        01068284 8b960c12\
        030106\
        dd85fa0bbc0d2a"
    .replace(' ', "")
    .as_str());
    b.extend(hex(PACK));
    b
}

fn location(edit: impl FnOnce(&mut [u8; 25])) -> Location {
    let mut m = msg(LOCATION);
    edit(&mut m);
    match decode_message(&m).unwrap() {
        Message::Location(l) => l,
        other => panic!("{other:?}"),
    }
}

fn all(mut it: rid_pocket::pack::PackIter<'_>) -> Vec<[u8; 25]> {
    let mut v = Vec::new();
    while let Some(m) = it.next() {
        v.push(m);
    }
    v
}

#[test]
fn beacon_positive() {
    let b = beacon();
    let r = parse_beacon(&b).unwrap();
    assert_eq!(r.src_mac, [0x02, 0x11, 0x22, 0x33, 0x44, 0x55]);
    assert_eq!(r.msg_counter, 0x2A);
    assert_eq!(r.pack, &b[56..184]);
    assert_eq!(r.pack, hex(PACK).as_slice());
}

#[test]
fn beacon_negative() {
    let b = beacon();
    let edit = |i: usize, v: u8| {
        let mut b = b.clone();
        b[i] = v;
        parse_beacon(&b).map(|_| ())
    };
    assert_eq!(
        parse_beacon(&b[..35]).map(|_| ()),
        Err(BeaconError::TooShort)
    );
    assert_eq!(edit(0, 0x50), Err(BeaconError::NotBeacon));
    assert_eq!(
        parse_beacon(&b[..36]).map(|_| ()),
        Err(BeaconError::NotRemoteId)
    );
    assert_eq!(edit(50, 0x86), Err(BeaconError::TruncatedIe));
    assert_eq!(edit(54, 0x0e), Err(BeaconError::NotRemoteId));
}

#[test]
fn pack_positive() {
    let p = hex(PACK);
    let msgs = all(parse_pack(&p).unwrap());
    let want = [BASIC_ID, LOCATION, SELF_ID, SYSTEM, OPERATOR_ID].map(msg);
    assert_eq!(msgs, want);
    let mut out = [0; 256];
    let n = build_pack(&want, &mut out).unwrap();
    assert_eq!(&out[..n], p.as_slice());
    let mut beacon = [0; 256];
    let n = build_beacon([2, 0x11, 0x22, 0x33, 0x44, 0x55], 0x2A, &p, &mut beacon).unwrap();
    let r = parse_beacon(&beacon[..n]).unwrap();
    assert_eq!((r.msg_counter, r.pack), (0x2A, p.as_slice()));
}

#[test]
fn pack_negative() {
    let p = hex(PACK);
    let edit = |i: usize, v: u8| {
        let mut p = p.clone();
        p[i] = v;
        parse_pack(&p).map(|_| ()).unwrap_err()
    };
    assert_eq!(
        parse_pack(&p[..2]).map(|_| ()).unwrap_err(),
        PackError::TooShort
    );
    assert_eq!(edit(0, 0xe2), PackError::NotAPack);
    assert_eq!(edit(1, 0x18), PackError::BadMessageSize(24));
    assert_eq!(edit(2, 0x0a), PackError::TooManyMessages(10));
    assert_eq!(edit(2, 0x00), PackError::Empty);
    assert_eq!(edit(2, 0x06), PackError::Truncated);
    assert_eq!(edit(53, 0x12), PackError::InvalidContent);
    assert_eq!(edit(53, 0x62), PackError::InvalidContent);
    assert_eq!(edit(53, 0xf2), PackError::InvalidContent);
}

#[test]
fn basic_id() {
    let m = msg(BASIC_ID);
    let Message::BasicId(v) = decode_message(&m).unwrap() else {
        panic!()
    };
    assert_eq!((v.proto_version, v.id_type, v.ua_type), (2, 1, 2));
    assert_eq!(v.as_str(), "RIDPOCKET-TEST-0001");
    assert_eq!(encode_basic_id(&v), m);
}

#[test]
fn location_positive() {
    let v = location(|_| ());
    assert_eq!(
        (v.status, v.height_type, v.ew_direction, v.speed_mult),
        (2, 0, 0, 0)
    );
    assert_eq!((v.direction_raw, v.speed_h_raw, v.speed_v_raw), (90, 20, 2));
    assert_eq!((v.lat_e7, v.lon_e7), (450_000_000, -1_205_000_000));
    assert_eq!(
        (v.alt_baro_raw, v.alt_geo_raw, v.height_raw),
        (2291, 2300, 2100)
    );
    assert_eq!(
        (v.horiz_acc, v.vert_acc, v.baro_acc, v.speed_acc),
        (10, 4, 3, 3)
    );
    assert_eq!((v.timestamp_raw, v.ts_acc), (12345, 2));
    assert_eq!(v.track_deg(), Some(90));
    assert_eq!(v.speed_h_quarter_mps().map(|q| q as f32 * 0.25), Some(5.0));
    assert_eq!(v.speed_v_half_mps().map(|h| h as f32 * 0.5), Some(1.0));
    assert!((v.latitude_e7().unwrap() as f64 * 1e-7 - 45.0).abs() < 1e-9);
    assert!((v.longitude_e7().unwrap() as f64 * 1e-7 + 120.5).abs() < 1e-9);
    assert_eq!(v.alt_baro_half_m().map(|h| h as f32 * 0.5), Some(145.5));
    assert_eq!(v.alt_geo_half_m().map(|h| h as f32 * 0.5), Some(150.0));
    assert_eq!(v.height_half_m().map(|h| h as f32 * 0.5), Some(50.0));
    assert!((v.timestamp_ds().unwrap() as f32 * 0.1 - 1234.5).abs() < 1e-3);
    assert_eq!(encode_location(&v), msg(LOCATION));
}

#[test]
fn location_invalid_values() {
    let v = location(|m| m[5..13].fill(0));
    assert_eq!((v.latitude_e7(), v.longitude_e7()), (None, None));
    assert_eq!(location(|m| m[15..17].fill(0)).alt_geo_half_m(), None);
    assert_eq!(location(|m| (m[1], m[2]) = (0x22, 0xb5)).track_deg(), None);
    assert_eq!(
        location(|m| (m[1], m[3]) = (0x21, 0xff)).speed_h_quarter_mps(),
        None
    );
    assert_eq!(location(|m| m[4] = 0x7e).speed_v_half_mps(), None);
    assert_eq!(location(|m| m[21..23].fill(0xff)).timestamp_ds(), None);
}

#[test]
fn decode_errors() {
    let mut m = msg(LOCATION);
    m[0] = 0xf2;
    assert_eq!(decode_message(&m), Err(DecodeError::NestedPack));
    m[0] = 0x72;
    assert_eq!(decode_message(&m), Err(DecodeError::UnknownType(7)));
}

#[test]
fn self_id() {
    let m = msg(SELF_ID);
    let Message::SelfId(v) = decode_message(&m).unwrap() else {
        panic!()
    };
    assert_eq!((v.desc_type, v.as_str()), (0, "Bench test"));
    assert_eq!(encode_self_id(&v), m);
}

#[test]
fn system() {
    let m = msg(SYSTEM);
    let Message::System(v) = decode_message(&m).unwrap() else {
        panic!()
    };
    assert_eq!((v.operator_location_type, v.classification_type), (1, 0));
    assert_eq!((v.op_lat_e7, v.op_lon_e7), (452_500_000, -1_207_500_000));
    assert_eq!(
        (
            v.area_count,
            v.area_radius_raw,
            v.area_ceiling_raw,
            v.area_floor_raw
        ),
        (1, 0, 0, 0)
    );
    assert_eq!(
        (v.category_eu, v.class_eu, v.op_alt_geo_raw, v.timestamp),
        (0, 0, 2200, 243_907_200)
    );
    assert!((v.latitude_e7().unwrap() as f64 * 1e-7 - 45.25).abs() < 1e-9);
    assert!((v.longitude_e7().unwrap() as f64 * 1e-7 + 120.75).abs() < 1e-9);
    assert_eq!(v.area_radius_m() as f32, 0.0);
    assert_eq!(
        (v.area_ceiling_half_m(), v.area_floor_half_m()),
        (None, None)
    );
    assert_eq!(v.op_alt_geo_half_m().map(|h| h as f32 * 0.5), Some(100.0));
    assert_eq!(v.timestamp_unix_s(), 1_790_208_000);
    assert_eq!(encode_system(&v), m);
}

#[test]
fn operator_id() {
    let m = msg(OPERATOR_ID);
    let Message::OperatorId(v) = decode_message(&m).unwrap() else {
        panic!()
    };
    assert_eq!((v.operator_id_type, v.as_str()), (0, "OP-TEST-0001"));
    assert_eq!(encode_operator_id(&v), m);
}

#[test]
fn auth_page0() {
    let m = msg(AUTH_P0);
    let Message::Auth(v) = decode_message(&m).unwrap() else {
        panic!()
    };
    assert_eq!((v.auth_type, v.data_page), (1, 0));
    assert_eq!((v.last_page_index(), v.length()), (Some(0), Some(17)));
    assert_eq!(v.timestamp_unix_s(), Some(243_907_200 + ODID_EPOCH_UNIX_S));
    assert_eq!(encode_auth(&v), m);
}
