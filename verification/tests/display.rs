use rid_pocket::lines::{detail_line, empty_line, header_line, row_title_line};
use rid_pocket::message::{BasicId, Location, OperatorId, SelfId, System};
use rid_pocket::tracks::Track;
use rid_pocket::ui::{
    label, mac, secs, status_color, status_letter, Color, Line, Pass, Screen, UiEvt, UiState,
    LINE_CAP,
};

fn track(mac: [u8; 6]) -> Track {
    Track {
        mac,
        first_seen_us: 0,
        last_seen_us: 0,
        frames: 0,
        last_counter: 0,
        channel: 6,
        rssi_last: 0,
        rssi_avg_x16: 0,
        basic_id: [None; 2],
        location: None,
        location_t_us: 0,
        system: None,
        operator_id: None,
        self_id: None,
        auth_msgs: 0,
    }
}

fn location(status: u8) -> Location {
    Location {
        proto_version: 2,
        status,
        height_type: 0,
        ew_direction: 0,
        speed_mult: 0,
        direction_raw: 0,
        speed_h_raw: 0,
        speed_v_raw: 0,
        lat_e7: 0,
        lon_e7: 0,
        alt_baro_raw: 0,
        alt_geo_raw: 0,
        height_raw: 0,
        vert_acc: 0,
        horiz_acc: 0,
        baro_acc: 0,
        speed_acc: 0,
        timestamp_raw: 0,
        ts_acc: 0,
    }
}

#[test]
fn lines_show_printable_ascii_and_cut_at_the_cap() {
    let mut l = Line::new();
    l.write_str("h\u{e9}llo\t");
    assert_eq!(l.as_str(), "h??llo?");
    l.write_str(&"x".repeat(100));
    assert_eq!(l.as_str().len(), LINE_CAP);
    assert!(l.as_str().ends_with('x'));
}

#[test]
fn macs_print_as_lower_case_hex() {
    assert_eq!(&mac(&[0x02, 0x11, 0xab, 0xcd, 0xef, 0x00]), b"02:11:ab:cd:ef:00");
}

#[test]
fn a_track_is_named_by_its_first_basic_id_else_its_mac() {
    let mut t = track([0xfa, 0x0b, 0xbc, 1, 2, 3]);
    assert_eq!(label(&t).as_str(), "fa:0b:bc:01:02:03");
    let mut id = *b"OTHER-KIND\0\0\0\0\0\0\0\0\0\0";
    t.basic_id[1] = Some(BasicId { proto_version: 2, id_type: 2, ua_type: 2, uas_id: id });
    assert_eq!(label(&t).as_str(), "OTHER-KIND");
    id[..6].copy_from_slice(b"SERIAL");
    id[6] = 0;
    t.basic_id[0] = Some(BasicId { proto_version: 2, id_type: 1, ua_type: 2, uas_id: id });
    assert_eq!(label(&t).as_str(), "SERIAL");
}

#[test]
fn status_letters_and_colours() {
    let mut t = track([1; 6]);
    assert_eq!((status_letter(&t), status_color(&t)), ('-', Color::White));
    let want = [
        ('U', Color::White),
        ('G', Color::White),
        ('A', Color::White),
        ('E', Color::Red),
        ('F', Color::Yellow),
        ('F', Color::White),
    ];
    for (s, w) in want.iter().enumerate() {
        t.location = Some(location(s as u8));
        assert_eq!((status_letter(&t), status_color(&t)), *w);
    }
}

#[test]
fn ages_in_whole_seconds() {
    assert_eq!(secs(5_999_999, 1_000_000), 4);
    assert_eq!(secs(1, 2), 0);
}

#[test]
fn the_selection_follows_the_rows() {
    let a = Some([0xa; 6]);
    let b = Some([0xb; 6]);
    let c = Some([0xc; 6]);
    let mut s = UiState::new();
    // Nothing on screen: the first pass clears it and says so.
    assert_eq!(s.begin_pass(&[None, None]), Pass { repaint: true, screen: Screen::Empty });
    assert_eq!(s.begin_pass(&[None, None]), Pass { repaint: false, screen: Screen::Empty });
    // Tracks appear: the first is selected and the screen repaints once.
    let rows = [a, None, b, c];
    assert_eq!(s.begin_pass(&rows), Pass { repaint: true, screen: Screen::List });
    assert_eq!(s.selected, a);
    assert_eq!(s.begin_pass(&rows), Pass { repaint: false, screen: Screen::List });
    assert!(!s.on_event(Some(UiEvt::NextTrack), &rows));
    assert_eq!(s.selected, b);
    assert!(!s.on_event(Some(UiEvt::NextTrack), &rows));
    assert_eq!(s.selected, c);
    assert!(!s.on_event(Some(UiEvt::NextTrack), &rows));
    assert_eq!(s.selected, a);
    // The detail view shows the selected row.
    assert!(!s.on_event(Some(UiEvt::ToggleView), &rows));
    assert_eq!(s.begin_pass(&rows), Pass { repaint: true, screen: Screen::Detail(0) });
    // The selected track leaves: the selection moves to the first row.
    let rows = [c, b];
    assert_eq!(s.begin_pass(&rows), Pass { repaint: false, screen: Screen::Detail(0) });
    assert_eq!(s.selected, c);
    assert!(s.on_event(Some(UiEvt::ClearTracks), &rows));
    assert!(s.dirty);
    assert!(!s.on_event(None, &rows));
    assert!(!s.on_event(Some(UiEvt::Redraw), &rows));
    // A first row without a track leaves nothing selected.
    assert_eq!(s.begin_pass(&[None, b]), Pass { repaint: true, screen: Screen::Empty });
    assert_eq!(s.selected, None);
}

fn full_track() -> Track {
    let mut t = track([0x02, 0x11, 0x22, 0x33, 0x44, 0x55]);
    t.rssi_last = -67;
    t.rssi_avg_x16 = -17;
    t.frames = 12;
    t.last_counter = 200;
    t.auth_msgs = 3;
    t.location_t_us = 1_000_000;
    t.basic_id[1] = Some(BasicId {
        proto_version: 2,
        id_type: 2,
        ua_type: 2,
        uas_id: *b"OTHER\0\0\0\0\0\0\0\0\0\0\0\0\0\0\0",
    });
    t.location = Some(Location {
        proto_version: 2,
        status: 2,
        height_type: 1,
        ew_direction: 0,
        speed_mult: 1,
        direction_raw: 90,
        speed_h_raw: 10,
        speed_v_raw: -3,
        lat_e7: -337_000_001,
        lon_e7: 1_512_345_678,
        alt_baro_raw: 1,
        alt_geo_raw: 0,
        height_raw: 2100,
        vert_acc: 0,
        horiz_acc: 0,
        baro_acc: 0,
        speed_acc: 0,
        timestamp_raw: 12345,
        ts_acc: 0,
    });
    t.system = Some(System {
        proto_version: 2,
        classification_type: 0,
        operator_location_type: 1,
        op_lat_e7: 452_500_000,
        op_lon_e7: 1_207_500_000,
        area_count: 1,
        area_radius_raw: 0,
        area_ceiling_raw: 0,
        area_floor_raw: 0,
        category_eu: 0,
        class_eu: 0,
        op_alt_geo_raw: 2200,
        timestamp: 0,
    });
    t.operator_id = Some(OperatorId {
        proto_version: 2,
        operator_id_type: 0,
        operator_id: *b"OP-TEST-0001\0\0\0\0\0\0\0\0",
    });
    t.self_id = Some(SelfId {
        proto_version: 2,
        desc_type: 0,
        desc: *b"Bench test\0\0\0\0\0\0\0\0\0\0\0\0\0",
    });
    t
}

#[test]
fn detail_lines_of_a_full_track() {
    let t = full_track();
    let lines: Vec<String> = (0..15).map(|k| detail_line(k, &t, 4_500_000).as_str().to_owned()).collect();
    assert_eq!(
        lines,
        [
            "ID  ",
            "ID2 OTHER",
            "MAC 02:11:22:33:44:55 CH 6 RSSI -67 (-1)",
            "ST AIRBORNE UA MULTIROTOR",
            "LAT -33.7000001 LON 151.2345678",
            "ALT geo ---m baro -999.5m",
            "HGT 50.0m AGL",
            "SPD 71.25m/s VS -1.5 TRK 90",
            "TS 1234.5s past hour, fix age 3s",
            "OP 45.2500000 120.7500000",
            "OPALT 100.0m LIVE",
            "OPID OP-TEST-0001",
            "SELF Bench test",
            "FRAMES 12 CTR 200 AUTH 3",
            "SEEN 4s ago",
        ]
    );
    assert_eq!(detail_line(99, &t, 4_500_000).as_str(), "SEEN 4s ago");
}

#[test]
fn detail_lines_without_messages() {
    let t = track([0; 6]);
    let lines: Vec<String> = (3..11).map(|k| detail_line(k, &t, 0).as_str().to_owned()).collect();
    assert_eq!(
        lines,
        [
            "ST --- UA ---",
            "LAT --- LON ---",
            "ALT geo ---m baro ---m",
            "HGT ---m ---",
            "SPD ---m/s VS --- TRK ---",
            "TS ---s past hour, fix age ---",
            "OP --- ---",
            "OPALT ---m ---",
        ]
    );
}

#[test]
fn detail_values_at_their_edges() {
    let mut t = full_track();
    let mut l = *t.location.as_ref().unwrap();
    l.speed_mult = 0;
    l.speed_h_raw = 255;
    l.speed_v_raw = 0;
    l.ew_direction = 1;
    l.direction_raw = 179;
    l.lat_e7 = -5;
    l.lon_e7 = 0;
    l.alt_geo_raw = 2000;
    l.height_type = 0;
    l.timestamp_raw = 36001;
    t.location = Some(l);
    assert_eq!(detail_line(7, &t, 0).as_str(), "SPD 63.75m/s VS +0.0 TRK 359");
    assert_eq!(detail_line(4, &t, 0).as_str(), "LAT -0.0000005 LON 0.0000000");
    assert_eq!(detail_line(5, &t, 0).as_str(), "ALT geo 0.0m baro -999.5m");
    assert_eq!(detail_line(6, &t, 0).as_str(), "HGT 50.0m TO");
    assert_eq!(detail_line(8, &t, 0).as_str(), "TS ---s past hour, fix age 0s");
    l.ew_direction = 1;
    l.direction_raw = 181;
    t.location = Some(l);
    assert!(detail_line(7, &t, 0).as_str().ends_with(" TRK ---"));
    t.rssi_avg_x16 = 32;
    assert!(detail_line(2, &t, 0).as_str().ends_with("(2)"));
}

#[test]
fn header_and_empty_lines() {
    assert_eq!(header_line(6, false, 3, 1_234_567, 5, 10).as_str(), "CH06 FIX  TRK 3  RID 234567 DROP 15");
    assert_eq!(
        header_line(11, true, 12, 42, 9000, 2000).as_str(),
        "CH11 HOP  TRK 12 RID 000042 DROP 9999"
    );
    assert_eq!(empty_line(1, false).as_str(), "No Remote ID on CH01");
    assert_eq!(empty_line(13, false).as_str(), "No Remote ID on CH13");
    assert_eq!(empty_line(1, true).as_str(), "No Remote ID on HOP");
}

#[test]
fn list_row_titles() {
    let mut t = full_track();
    t.last_seen_us = 1_000_000;
    let want = format!("{}{:<20.20}{:>19}", '>', "OTHER", "3s");
    assert_eq!(row_title_line(&t, 4_500_000, Some(t.mac)).as_str(), want);
    let want = format!("{}{:<20.20}{:>19}", ' ', "OTHER", "99s");
    assert_eq!(row_title_line(&t, 500_000_000, Some([9; 6])).as_str(), want);
    let mut u = track([0xab; 6]);
    u.basic_id[0] = Some(BasicId { proto_version: 2, id_type: 1, ua_type: 0, uas_id: *b"ABCDEFGHIJKLMNOPQRST" });
    let want = format!("{}{:<20.20}{:>19}", ' ', "ABCDEFGHIJKLMNOPQRST", "0s");
    assert_eq!(row_title_line(&u, 0, None).as_str(), want);
    let v = track([0xab; 6]);
    let want = format!("{}{:<20.20}{:>19}", ' ', "ab:ab:ab:ab:ab:ab", "12s");
    assert_eq!(row_title_line(&v, 12_000_000, None).as_str(), want);
}
