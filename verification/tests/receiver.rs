use rid_pocket::buttons::{button_actions, next_preset, Button, Press, LONG_MS, POLL_MS};
use rid_pocket::ui::UiEvt;
use rid_pocket::encode::{build_beacon, build_pack, encode_basic_id, encode_location};
use rid_pocket::fuzz::{touch_message, touch_pack};
use rid_pocket::host::{level_name, source_name, Deframer, SeqEvent, SeqTracker};
use rid_pocket::message::{BasicId, Location};
use rid_pocket::pack::parse_pack;
use rid_pocket::proto::{decode_raw, Hello, Log, Payload, PACK_CAP};
use rid_pocket::radio::{
    classify_frame, RadioAction, RadioCmd, RadioEvent, RadioState, RawObs, Sniffed,
};
use rid_pocket::status::{next_pass, send_hello, status_payload, BOOT_CHANNEL};
use rid_pocket::tracks::{TrackTable, HIDE_AFTER_US, MAX_TRACKS};
use rid_pocket::obs::{handle_obs, obs_payload};
use rid_pocket::wire::{send, FrameLogger, LogText};
use rid_pocket::cobs::cobs_decode;

fn pack_of(msgs: &[[u8; 25]]) -> Vec<u8> {
    let mut out = vec![0; 3 + 25 * msgs.len()];
    let n = build_pack(msgs, &mut out).unwrap();
    out.truncate(n);
    out
}

fn obs(mac: [u8; 6], t_dev_us: u64, rssi: i8) -> RawObs {
    RawObs {
        t_dev_us,
        t_mac_us: 0,
        channel: 6,
        rssi,
        src_mac: mac,
        msg_counter: 1,
        ie_len: 5,
        pack_len: 0,
        pack: [0; PACK_CAP],
    }
}

fn id_pack() -> Vec<u8> {
    pack_of(&[encode_basic_id(&BasicId {
        proto_version: 2,
        id_type: 1,
        ua_type: 2,
        uas_id: *b"RIDPOCKET-TEST-0001\0",
    })])
}

// ---------------------------------------------------------------- buttons

fn feed(b: &mut Button, samples: &[bool]) -> Vec<Option<Press>> {
    samples.iter().map(|&s| b.poll(s)).collect()
}

#[test]
fn a_tap_is_a_short_press_after_three_equal_samples() {
    let mut b = Button::new();
    let got = feed(&mut b, &[true, true, true, true, false, false]);
    assert!(got.iter().all(|p| p.is_none()));
    assert_eq!(b.poll(false), Some(Press::Short));
    assert_eq!(b.poll(false), None);
}

#[test]
fn bounces_shorter_than_three_samples_are_ignored() {
    let mut b = Button::new();
    let got = feed(&mut b, &[true, true, false, true, true, false, false, false, false]);
    assert!(got.iter().all(|p| p.is_none()));
}

#[test]
fn a_held_button_reports_one_long_press_and_no_short_one() {
    let mut b = Button::new();
    let mut events = Vec::new();
    // Debounced on the third sample, then every sample adds POLL_MS.
    let n = 2 + (LONG_MS / POLL_MS) as usize + 20;
    for _ in 0..n {
        if let Some(p) = b.poll(true) {
            events.push(p);
        }
    }
    for _ in 0..5 {
        if let Some(p) = b.poll(false) {
            events.push(p);
        }
    }
    assert_eq!(events, vec![Press::Long]);
}

#[test]
fn the_long_press_comes_on_the_eightieth_pressed_sample() {
    let mut b = Button::new();
    let got = feed(&mut b, &[true; 82]);
    let at: Vec<usize> = got.iter().enumerate().filter(|(_, p)| p.is_some()).map(|(i, _)| i).collect();
    assert_eq!(at, vec![81]);
    assert_eq!(got[81], Some(Press::Long));
}

#[test]
fn presets_cycle_through_six_one_eleven_and_hop() {
    assert_eq!(next_preset(false, 6), RadioCmd::SetFixed(1));
    assert_eq!(next_preset(false, 1), RadioCmd::SetFixed(11));
    assert_eq!(next_preset(false, 11), RadioCmd::SetHop);
    assert_eq!(next_preset(true, 1), RadioCmd::SetFixed(6));
    assert_eq!(next_preset(false, 3), RadioCmd::SetFixed(6));
}

#[test]
fn button_a_wins_and_button_b_still_changes_the_preset() {
    assert_eq!(
        button_actions(Some(Press::Short), Some(Press::Short), false, 6),
        (Some(UiEvt::NextTrack), Some(RadioCmd::SetFixed(1)))
    );
    assert_eq!(button_actions(Some(Press::Long), None, false, 6), (Some(UiEvt::ToggleView), None));
    assert_eq!(
        button_actions(None, Some(Press::Short), true, 11),
        (Some(UiEvt::Redraw), Some(RadioCmd::SetFixed(6)))
    );
    assert_eq!(button_actions(None, Some(Press::Long), false, 6), (Some(UiEvt::ClearTracks), None));
    assert_eq!(button_actions(None, None, false, 6), (None, None));
}

// ---------------------------------------------------------------- radio

#[test]
fn hop_mode_visits_one_six_eleven() {
    let mut s = RadioState::new();
    assert_eq!(s.step(RadioEvent::Tick), RadioAction { set_channel: None, reset_ticker: false });
    assert_eq!(
        s.step(RadioEvent::Cmd(RadioCmd::SetHop)),
        RadioAction { set_channel: Some(1), reset_ticker: true }
    );
    let chans: Vec<Option<u8>> = (0..4).map(|_| s.step(RadioEvent::Tick).set_channel).collect();
    assert_eq!(chans, vec![Some(6), Some(11), Some(1), Some(6)]);
    assert_eq!(
        s.step(RadioEvent::Cmd(RadioCmd::SetFixed(11))),
        RadioAction { set_channel: Some(11), reset_ticker: false }
    );
    assert!(!s.hop_mode);
    assert_eq!(s.step(RadioEvent::Tick).set_channel, None);
    assert_eq!(s.step(RadioEvent::Cmd(RadioCmd::SetFixed(14))).set_channel, None);
    assert_eq!(s.step(RadioEvent::Cmd(RadioCmd::SetFixed(0))).set_channel, None);
}

fn beacon_frame(pack: &[u8]) -> Vec<u8> {
    let mut b = vec![0u8; 43 + pack.len()];
    let n = build_beacon([2, 0x11, 0x22, 0x33, 0x44, 0x55], 0x2A, pack, &mut b).unwrap();
    b.truncate(n);
    // The received buffer carries the 4-byte FCS.
    b.extend([0xAA, 0xBB, 0xCC, 0xDD]);
    b
}

#[test]
fn a_remote_id_beacon_becomes_an_observation() {
    let pack = pack_of(&[encode_basic_id(&BasicId {
        proto_version: 2,
        id_type: 1,
        ua_type: 2,
        uas_id: *b"RIDPOCKET-TEST-0001\0",
    })]);
    let f = beacon_frame(&pack);
    match classify_frame(0, 0, &f, f.len(), 123_456, 789, 6, -300) {
        Sniffed::Rid(o) => {
            assert_eq!(o.t_dev_us, 123_456);
            assert_eq!(o.t_mac_us, 789);
            assert_eq!(o.channel, 6);
            assert_eq!(o.rssi, -128);
            assert_eq!(o.src_mac, [2, 0x11, 0x22, 0x33, 0x44, 0x55]);
            assert_eq!(o.msg_counter, 0x2A);
            assert_eq!(o.ie_len as usize, pack.len() + 5);
            assert_eq!(o.pack_len as usize, pack.len());
            assert_eq!(&o.pack[..pack.len()], &pack[..]);
            assert!(o.pack[pack.len()..].iter().all(|&b| b == 0));
        }
        other => panic!("{other:?}"),
    }
}

#[test]
fn other_frames_are_only_counted() {
    let pack = id_pack();
    let f = beacon_frame(&pack);
    assert_eq!(classify_frame(2, 0, &f, f.len(), 0, 0, 6, -50), Sniffed::NotManagement);
    assert_eq!(classify_frame(0, 1, &f, f.len(), 0, 0, 6, -50), Sniffed::Management);
    assert_eq!(classify_frame(0, 0, &f, 39, 0, 0, 6, -50), Sniffed::Management);
    assert_eq!(classify_frame(0, 0, &f, f.len() + 5, 0, 0, 6, -50), Sniffed::Management);
    let mut probe = f.clone();
    probe[0] = 0x40;
    assert_eq!(classify_frame(0, 0, &probe, probe.len(), 0, 0, 6, -50), Sniffed::Management);
    // A beacon whose vendor element is not Remote ID.
    let mut plain = f.clone();
    plain[38] = 0x00;
    assert_eq!(classify_frame(0, 0, &plain, plain.len(), 0, 0, 6, -50), Sniffed::Beacon);
    // A Remote ID element that runs past the end of the frame.
    let mut cut = f.clone();
    cut[37] = 200;
    assert_eq!(classify_frame(0, 0, &cut, cut.len(), 0, 0, 6, -50), Sniffed::BeaconError);
}

// ---------------------------------------------------------------- tracks

#[test]
fn one_mac_keeps_one_slot() {
    let mut t = TrackTable::new();
    assert_eq!(t.visible_count(0), 0);
    let p = id_pack();
    t.update(&obs([1; 6], 1_000_000, -40), parse_pack(&p).unwrap());
    t.update(&obs([1; 6], 2_000_000, -40), parse_pack(&p).unwrap());
    t.update(&obs([2; 6], 3_000_000, -40), parse_pack(&p).unwrap());
    assert_eq!(t.visible_count(3_000_000), 2);
}

#[test]
fn tracks_hide_after_ten_seconds() {
    let mut t = TrackTable::new();
    let p = pack_of(&[encode_location(&Location {
        proto_version: 2,
        status: 2,
        height_type: 0,
        ew_direction: 0,
        speed_mult: 0,
        direction_raw: 90,
        speed_h_raw: 20,
        speed_v_raw: 0,
        lat_e7: 450_000_000,
        lon_e7: 1_205_000_000,
        alt_baro_raw: 2291,
        alt_geo_raw: 2300,
        height_raw: 2100,
        vert_acc: 0,
        horiz_acc: 0,
        baro_acc: 0,
        speed_acc: 0,
        timestamp_raw: 12345,
        ts_acc: 0,
    })]);
    t.update(&obs([1; 6], 5_000_000, -60), parse_pack(&p).unwrap());
    assert_eq!(t.visible_count(5_000_000 + HIDE_AFTER_US), 1);
    assert_eq!(t.visible_count(5_000_000 + HIDE_AFTER_US + 1), 0);
    // A clock behind the track still shows it.
    assert_eq!(t.visible_count(0), 1);
}

#[test]
fn a_full_table_evicts_the_track_seen_longest_ago() {
    let mut t = TrackTable::new();
    let p = id_pack();
    for k in 0..MAX_TRACKS {
        let mac = [0x10, 0, 0, 0, 0, k as u8];
        t.update(&obs(mac, (k as u64 + 1) * 1_000_000, -50), parse_pack(&p).unwrap());
    }
    // At 11 s every track was seen within ten seconds.
    assert_eq!(t.visible_count(11_000_000), MAX_TRACKS);
    t.update(&obs([0x20; 6], 100_000_000, -50), parse_pack(&p).unwrap());
    // Seen within ten seconds of 20 s: the tracks of 10..=16 s and the new
    // one (ahead of the clock); the track of 1 s made room.
    assert_eq!(t.visible_count(20_000_000), 8);
    // The MAC seen at 1 s comes back in the slot of the oldest, now 2 s.
    t.update(&obs([0x10, 0, 0, 0, 0, 0], 101_000_000, -50), parse_pack(&p).unwrap());
    assert_eq!(t.visible_count(20_000_000), 9);
    assert_eq!(t.visible_count(12_000_000), MAX_TRACKS);
}

// ---------------------------------------------------------------- wire and status

#[test]
fn send_numbers_frames_and_wraps() {
    let mut seq = u32::MAX;
    let fb = send(&mut seq, 42, Payload::Log(Log { level: 3, text: b"x" })).unwrap();
    assert_eq!(seq, 0);
    let bytes = fb.as_bytes();
    assert_eq!(*bytes.last().unwrap(), 0);
    let mut raw = [0u8; 320];
    let n = cobs_decode(&bytes[..bytes.len() - 1], &mut raw).unwrap();
    let f = decode_raw(&raw[..n]).unwrap();
    assert_eq!(f.seq, u32::MAX);
    assert_eq!(f.t_dev_us, 42);
    // A frame too long to encode still uses up its number.
    let long = [b'a'; 300];
    assert!(send(&mut seq, 0, Payload::Log(Log { level: 3, text: &long })).is_none());
    assert_eq!(seq, 1);
}

#[test]
fn hello_pads_and_cuts() {
    let h: Hello = send_hello(b"0.1.0", b"abcdef1234567890", [1, 2, 3, 4, 5, 6]);
    assert_eq!(&h.fw_version[..5], b"0.1.0");
    assert!(h.fw_version[5..].iter().all(|&b| b == 0));
    assert_eq!(&h.git_sha, b"abcdef12");
    assert_eq!(h.device_mac, [1, 2, 3, 4, 5, 6]);
    assert_eq!(h.boot_channel, BOOT_CHANNEL);
    let h = send_hello(b"", b"ab", [0; 6]);
    assert_eq!(h.fw_version, [0; 16]);
    assert_eq!(h.git_sha, *b"ab\0\0\0\0\0\0");
}

#[test]
fn status_fields() {
    let s = status_payload(42_999_999, 11, true, 300, 0x1_0000_0005, [7; 9]);
    assert_eq!(s.uptime_s, 42);
    assert_eq!(s.channel, 11);
    assert_eq!(s.mode, 1);
    assert_eq!(s.tracks_active, 44);
    assert_eq!(s.heap_free as u64, (0x1_0000_0005usize as u64) & 0xFFFF_FFFF);
    assert_eq!(s.counters, [7; 9]);
    assert_eq!(status_payload(0, 6, false, 0, 0, [0; 9]).mode, 0);
}

#[test]
fn hello_every_thirtieth_pass() {
    assert_eq!(next_pass(0), (1, false));
    assert_eq!(next_pass(29), (30, true));
    assert_eq!(next_pass(59), (60, true));
    assert_eq!(next_pass(u32::MAX), (0, true));
}

// ---------------------------------------------------------------- host

#[test]
fn deframer_cuts_at_zeros_and_keeps_the_rest() {
    let mut d = Deframer::new();
    assert_eq!(d.feed(&[1, 2, 0, 0, 3]), vec![vec![1, 2]]);
    assert_eq!(d.feed(&[4, 0, 5]), vec![vec![3, 4]]);
    assert_eq!(d.feed(&[]), Vec::<Vec<u8>>::new());
    assert_eq!(d.feed(&[0]), vec![vec![5]]);
}

#[test]
fn sequence_numbers_resync_advance_and_reorder() {
    let mut t = SeqTracker::new();
    assert_eq!(t.observe(10, false), SeqEvent::Resync);
    assert_eq!(t.observe(11, false), SeqEvent::Advance { missed: 0 });
    assert_eq!(t.observe(15, false), SeqEvent::Advance { missed: 3 });
    assert_eq!(t.observe(12, false), SeqEvent::Reorder);
    assert_eq!(t.observe(15, false), SeqEvent::Reorder);
    assert_eq!(t.prev, Some(15));
    assert_eq!(t.observe(0, true), SeqEvent::Resync);
    assert_eq!(t.prev, Some(0));
    let mut w = SeqTracker { prev: Some(u32::MAX) };
    assert_eq!(w.observe(1, false), SeqEvent::Advance { missed: 1 });
}

#[test]
fn names_of_levels_and_sources() {
    let levels: Vec<&str> = (0..=6).map(level_name).collect();
    assert_eq!(levels, ["unknown", "error", "warn", "info", "debug", "trace", "unknown"]);
    assert_eq!(source_name(1), "wifi_beacon");
    assert_eq!(source_name(2), "unknown");
}

#[test]
fn decoders_take_any_input() {
    let mut x: u32 = 0x1234_5678;
    for len in 0..300usize {
        let mut buf = vec![0u8; len];
        for b in buf.iter_mut() {
            x ^= x << 13;
            x ^= x >> 17;
            x ^= x << 5;
            *b = x as u8;
        }
        if len >= 3 {
            buf[0] = 0xF2;
            buf[1] = 25;
            buf[2] = ((len - 3) / 25) as u8;
        }
        touch_pack(&buf);
        if len == 25 {
            for t in 0..16u8 {
                buf[0] = t << 4 | 2;
                touch_message(buf.as_slice().try_into().unwrap());
            }
        }
    }
}

// ---------------------------------------------------------------- log and observations

#[test]
fn log_text_stops_before_the_first_character_that_does_not_fit() {
    let mut t = LogText::new();
    t.write_str(&"a".repeat(198));
    // 'é' takes two bytes and fits; '€' takes three and does not, and the
    // rest of that piece is dropped even though 'b' would fit.
    t.write_str("é€b");
    assert_eq!(t.as_bytes().len(), 200);
    assert_eq!(&t.as_bytes()[198..], "é".as_bytes());
    t.write_str("c");
    assert_eq!(t.as_bytes().len(), 200);
    let mut u = LogText::new();
    u.write_str("radio up ");
    u.write_str("ch=6");
    assert_eq!(u.as_bytes(), b"radio up ch=6");
}

#[test]
fn a_later_piece_may_still_fit() {
    let mut t = LogText::new();
    t.write_str(&"a".repeat(198));
    t.write_str("€");
    t.write_str("bc");
    assert_eq!(t.as_bytes().len(), 200);
    assert_eq!(&t.as_bytes()[198..], b"bc");
}

#[test]
fn the_logger_sends_info_and_above() {
    let l = FrameLogger;
    let mut text = LogText::new();
    text.write_str("radio up ch=6");
    assert!(l.enabled(1) && l.enabled(2) && l.enabled(3));
    assert!(!l.enabled(4) && !l.enabled(5) && !l.enabled(0));
    let mut seq = 7;
    assert!(l.log(&mut seq, 1, 4, &text).is_none());
    assert_eq!(seq, 7);
    let fb = l.log(&mut seq, 42_000_000, 3, &text).unwrap();
    assert_eq!(seq, 8);
    let bytes = fb.as_bytes();
    let mut raw = [0u8; 320];
    let n = cobs_decode(&bytes[..bytes.len() - 1], &mut raw).unwrap();
    let f = decode_raw(&raw[..n]).unwrap();
    assert_eq!(f.seq, 7);
    assert_eq!(f.t_dev_us, 42_000_000);
    assert_eq!(f.payload, Payload::Log(Log { level: 3, text: b"radio up ch=6" }));
}

#[test]
fn an_observation_is_forwarded_then_tracked() {
    let pack = id_pack();
    let f = beacon_frame(&pack);
    let o = match classify_frame(0, 0, &f, f.len(), 1_500_000, 49, 6, -67) {
        Sniffed::Rid(o) => o,
        other => panic!("{other:?}"),
    };
    let mut seq = 0;
    let mut t = TrackTable::new();
    let (fb, rejected) = handle_obs(&o, &mut seq, &mut t);
    assert!(!rejected);
    assert_eq!(seq, 1);
    assert_eq!(t.visible_count(1_500_000), 1);
    let bytes = fb.unwrap();
    let bytes = bytes.as_bytes();
    let mut raw = [0u8; 320];
    let n = cobs_decode(&bytes[..bytes.len() - 1], &mut raw).unwrap();
    match decode_raw(&raw[..n]).unwrap().payload {
        Payload::Obs(p) => {
            assert_eq!(p, obs_payload(&o));
            assert_eq!(p.source, 1);
            assert_eq!(p.rssi_dbm, -67);
            assert_eq!(p.t_mac_us, 49);
            assert_eq!(p.pack, &pack[..]);
        }
        other => panic!("{other:?}"),
    }
}

#[test]
fn a_rejected_pack_is_still_forwarded() {
    let mut o = obs([3; 6], 9, -20);
    o.pack[..3].copy_from_slice(&[0xF2, 25, 0]);
    o.pack_len = 3;
    let mut seq = u32::MAX;
    let mut t = TrackTable::new();
    let (fb, rejected) = handle_obs(&o, &mut seq, &mut t);
    assert!(rejected);
    assert!(fb.is_some());
    assert_eq!(seq, 0);
    assert_eq!(t.visible_count(9), 0);
}
