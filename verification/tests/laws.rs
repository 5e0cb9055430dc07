use rid_pocket::beacon::parse_beacon;
use rid_pocket::cobs::{cobs_decode, cobs_encode};
use rid_pocket::encode::{
    build_beacon, build_pack, encode_auth, encode_basic_id, encode_location, encode_operator_id,
    encode_self_id, encode_system, EncodeError,
};
use rid_pocket::message::{
    decode_message, AuthPage, BasicId, Location, Message, OperatorId, SelfId, System,
};
use rid_pocket::pack::parse_pack;
use rid_pocket::proto::{
    crc32, decode_raw, encode_raw, Frame, FrameBuf, FrameError, Log, Obs, Payload, MAX_RAW,
};

fn location_value() -> Location {
    Location {
        proto_version: 2,
        status: 3,
        height_type: 1,
        ew_direction: 1,
        speed_mult: 1,
        direction_raw: 170,
        speed_h_raw: 254,
        speed_v_raw: -40,
        lat_e7: -337_000_001,
        lon_e7: 1_512_345_678,
        alt_baro_raw: 1,
        alt_geo_raw: 65535,
        height_raw: 4000,
        vert_acc: 15,
        horiz_acc: 1,
        baro_acc: 7,
        speed_acc: 9,
        timestamp_raw: 36000,
        ts_acc: 11,
    }
}

fn system_value() -> System {
    System {
        proto_version: 1,
        classification_type: 5,
        operator_location_type: 2,
        op_lat_e7: i32::MIN,
        op_lon_e7: i32::MAX,
        area_count: 513,
        area_radius_raw: 200,
        area_ceiling_raw: 3000,
        area_floor_raw: 1999,
        category_eu: 3,
        class_eu: 6,
        op_alt_geo_raw: 2,
        timestamp: 0xDEAD_BEEF,
    }
}

#[test]
fn decode_of_encode_gives_each_message_back() {
    let b = BasicId { proto_version: 15, id_type: 4, ua_type: 13, uas_id: *b"ABCDEFGHIJKLMNOPQRST" };
    assert_eq!(decode_message(&encode_basic_id(&b)), Ok(Message::BasicId(b)));
    let l = location_value();
    assert_eq!(decode_message(&encode_location(&l)), Ok(Message::Location(l)));
    let a = AuthPage { proto_version: 2, auth_type: 5, data_page: 9, data: [0xA5; 23] };
    assert_eq!(decode_message(&encode_auth(&a)), Ok(Message::Auth(a)));
    let s = SelfId { proto_version: 0, desc_type: 201, desc: [0x41; 23] };
    assert_eq!(decode_message(&encode_self_id(&s)), Ok(Message::SelfId(s)));
    let y = system_value();
    assert_eq!(decode_message(&encode_system(&y)), Ok(Message::System(y)));
    let o = OperatorId { proto_version: 2, operator_id_type: 255, operator_id: [0x7F; 20] };
    assert_eq!(decode_message(&encode_operator_id(&o)), Ok(Message::OperatorId(o)));
}

#[test]
fn encoders_truncate_fields_to_their_bits() {
    let mut b = BasicId { proto_version: 0x12, id_type: 0x31, ua_type: 0x4F, uas_id: [0; 20] };
    let m = encode_basic_id(&b);
    assert_eq!((m[0], m[1]), (0x02, 0x1F));
    b.proto_version = 2;
    b.id_type = 1;
    b.ua_type = 15;
    assert_eq!(decode_message(&m), Ok(Message::BasicId(b)));
}

#[test]
fn encode_of_decode_clears_reserved_bits() {
    let mut m = encode_location(&location_value());
    assert_eq!(m[24], 0);
    m[24] = 0x99;
    m[1] |= 0x08;
    let Ok(Message::Location(l)) = decode_message(&m) else { panic!() };
    assert_eq!(l, location_value());
    let e = encode_location(&l);
    assert_eq!((e[1] & 0x08, e[24]), (0, 0));
}

#[test]
fn decoded_location_accessors() {
    let l = location_value();
    assert_eq!(l.track_deg(), Some(350));
    assert_eq!(l.speed_h_quarter_mps(), Some(3 * 254 + 255));
    assert_eq!(l.speed_v_half_mps(), Some(-40));
    assert_eq!((l.latitude_e7(), l.longitude_e7()), (Some(-337_000_001), Some(1_512_345_678)));
    assert_eq!(l.alt_baro_half_m(), Some(-1999));
    assert_eq!(l.alt_geo_half_m(), Some(63535));
    assert_eq!(l.timestamp_ds(), Some(36000));
    let y = system_value();
    assert_eq!((y.latitude_e7(), y.longitude_e7()), (None, None));
    assert_eq!(y.area_radius_m(), 2000);
    assert_eq!(y.area_floor_half_m(), Some(-1));
    assert_eq!(y.timestamp_unix_s(), 0xDEAD_BEEF + 1_546_300_800);
    let a = AuthPage { proto_version: 2, auth_type: 1, data_page: 1, data: [7; 23] };
    assert_eq!((a.last_page_index(), a.length(), a.timestamp_unix_s()), (None, None, None));
}

#[test]
fn text_fields_stop_at_nul_and_at_invalid_utf8() {
    let mut id = [0u8; 20];
    id[..5].copy_from_slice(b"AB\xC3\xA9C");
    id[6..9].copy_from_slice(b"XYZ");
    let b = BasicId { proto_version: 2, id_type: 1, ua_type: 2, uas_id: id };
    assert_eq!(b.as_str(), "ABéC");
    id[3] = 0x41;
    let b = BasicId { uas_id: id, ..b };
    assert_eq!(b.as_str(), "AB");
    let s = SelfId { proto_version: 2, desc_type: 0, desc: [b'x'; 23] };
    assert_eq!(s.as_str().len(), 23);
}

fn pack_of(msgs: &[[u8; 25]]) -> Vec<u8> {
    let mut out = vec![0; 3 + 25 * msgs.len()];
    let n = build_pack(msgs, &mut out).unwrap();
    out.truncate(n);
    out
}

#[test]
fn parse_of_built_pack_gives_the_messages_back() {
    let msgs = [
        encode_auth(&AuthPage { proto_version: 2, auth_type: 1, data_page: 0, data: [1; 23] }),
        encode_auth(&AuthPage { proto_version: 2, auth_type: 1, data_page: 1, data: [2; 23] }),
        encode_location(&location_value()),
        encode_system(&system_value()),
    ];
    let p = pack_of(&msgs);
    let mut it = parse_pack(&p).unwrap();
    assert_eq!(it.len(), 4);
    for m in msgs {
        assert_eq!(it.next(), Some(m));
    }
    assert_eq!(it.next(), None);
    assert_eq!(it.len(), 0);
}

#[test]
fn build_pack_errors() {
    let m = [0u8; 25];
    let mut out = [0xEEu8; 300];
    assert_eq!(build_pack(&[m; 10], &mut out), Err(EncodeError::TooManyMessages));
    assert!(out.iter().all(|&b| b == 0xEE));
    let mut small = [0xEEu8; 2];
    assert_eq!(build_pack(&[m; 1], &mut small), Err(EncodeError::BufferTooSmall));
    assert_eq!(small, [0xEE; 2]);
    let mut short = [0xEEu8; 27];
    assert_eq!(build_pack(&[m; 1], &mut short), Err(EncodeError::BufferTooSmall));
    assert_eq!(&short[..3], &[0xF2, 25, 1]);
    assert!(short[3..].iter().all(|&b| b == 0xEE));
}

#[test]
fn build_beacon_errors() {
    let pack = [0u8; 251];
    let mut out = [0u8; 400];
    assert_eq!(build_beacon([1; 6], 0, &pack, &mut out), Err(EncodeError::BufferTooSmall));
    let mut out = [0u8; 42];
    assert_eq!(build_beacon([1; 6], 0, &[], &mut out), Err(EncodeError::BufferTooSmall));
    let mut out = [0u8; 50];
    assert_eq!(build_beacon([1; 6], 0, &[1; 8], &mut out), Err(EncodeError::BufferTooSmall));
    assert_eq!(out[36..43], [0xDD, 13, 0xFA, 0x0B, 0xBC, 0x0D, 0]);
    assert_eq!(build_beacon([1; 6], 0, &[1; 7], &mut out), Ok(50));
}

#[test]
fn beacon_ignores_bytes_after_the_remote_id_element() {
    let pack = pack_of(&[encode_basic_id(&BasicId {
        proto_version: 2,
        id_type: 1,
        ua_type: 2,
        uas_id: [0x33; 20],
    })]);
    let mut b = vec![0u8; 43 + pack.len()];
    let n = build_beacon([9, 8, 7, 6, 5, 4], 7, &pack, &mut b).unwrap();
    b.truncate(n);
    let want = parse_beacon(&b).unwrap();
    let mut longer = b.clone();
    longer.extend([0xDD, 0xFF, 0x01]);
    let got = parse_beacon(&longer).unwrap();
    assert_eq!((got.src_mac, got.msg_counter, got.pack), (want.src_mac, want.msg_counter, want.pack));
    assert_eq!(got.src_mac, [9, 8, 7, 6, 5, 4]);
    // An element after the Remote ID one that runs past the end changes nothing.
    let mut broken = b.clone();
    broken.extend([0x30, 0xFF, 0x01]);
    let got = parse_beacon(&broken).unwrap();
    assert_eq!((got.src_mac, got.msg_counter, got.pack), (want.src_mac, want.msg_counter, want.pack));
}

#[test]
fn cobs_round_trips_and_has_no_zero() {
    let mut src = Vec::new();
    for i in 0..700u32 {
        src.push(if i % 97 == 0 { 0 } else { (i * 31 % 251 + 1) as u8 });
    }
    let mut enc = vec![0u8; 710];
    let n = cobs_encode(&src, &mut enc).unwrap();
    assert!(!enc[..n].contains(&0));
    let mut dec = vec![0u8; 700];
    let m = cobs_decode(&enc[..n], &mut dec).unwrap();
    assert_eq!(&dec[..m], src.as_slice());
    let mut too_small = vec![0u8; n - 1];
    assert_eq!(cobs_encode(&src, &mut too_small), None);
    let mut dec_small = vec![0u8; 699];
    assert_eq!(cobs_decode(&enc[..n], &mut dec_small), None);
    assert_eq!(cobs_decode(&[0x03, 0x11, 0x00], &mut dec), None);
    assert_eq!(cobs_decode(&[0x00], &mut dec), None);
}

#[test]
fn frame_errors() {
    let frame = Frame { seq: 9, t_dev_us: 77, payload: Payload::Log(Log { level: 2, text: b"hi" }) };
    let mut raw = [0u8; MAX_RAW];
    let n = encode_raw(&frame, &mut raw).unwrap();
    assert_eq!(decode_raw(&raw[..n]), Ok(frame));
    assert_eq!(decode_raw(&raw[..17]), Err(FrameError::BadLength));
    let mut bad = raw;
    bad[15] ^= 1;
    assert_eq!(decode_raw(&bad[..n]), Err(FrameError::BadCrc));
    let mut other = raw[..n - 4].to_vec();
    other[0] = 2;
    let crc = crc32(&other);
    other.extend(crc.to_le_bytes());
    assert_eq!(decode_raw(&other), Err(FrameError::Unknown));
    let mut wrong_len = raw[..n - 4].to_vec();
    wrong_len[15] = 5;
    let crc = crc32(&wrong_len);
    wrong_len.extend(crc.to_le_bytes());
    assert_eq!(decode_raw(&wrong_len), Err(FrameError::BadLength));
}

#[test]
fn oversized_fields_are_refused() {
    let big = [1u8; 229];
    let frame = Frame {
        seq: 0,
        t_dev_us: 0,
        payload: Payload::Obs(Obs {
            channel: 1,
            rssi_dbm: 0,
            source: 1,
            src_mac: [0; 6],
            msg_counter: 0,
            t_mac_us: 0,
            ie_len: 0,
            pack: &big,
        }),
    };
    let mut raw = [0u8; 400];
    assert_eq!(encode_raw(&frame, &mut raw), None);
    assert!(FrameBuf::encode(&frame).is_none());
    let text = [b'a'; 201];
    let frame = Frame { seq: 0, t_dev_us: 0, payload: Payload::Log(Log { level: 1, text: &text }) };
    assert!(FrameBuf::encode(&frame).is_none());
    let ok = Frame { seq: 0, t_dev_us: 0, payload: Payload::Log(Log { level: 1, text: &text[..200] }) };
    let mut tiny = [0u8; 20];
    assert_eq!(encode_raw(&ok, &mut tiny), None);
    assert!(FrameBuf::encode(&ok).is_some());
}
