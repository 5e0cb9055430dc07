//! The display lines print scaled quantities from integers; these tests hold
//! them to what formatting the same quantities as floats prints.

use rid_pocket::lines::{detail_line, row_info_line};
use rid_pocket::message::{Location, System};
use rid_pocket::tracks::Track;

fn track_with(l: Location) -> Track {
    Track {
        mac: [1; 6],
        first_seen_us: 0,
        last_seen_us: 0,
        frames: 0,
        last_counter: 0,
        channel: 6,
        rssi_last: 0,
        rssi_avg_x16: 0,
        basic_id: [None; 2],
        location: Some(l),
        location_t_us: 0,
        system: None,
        operator_id: None,
        self_id: None,
        auth_msgs: 0,
    }
}

fn loc() -> Location {
    Location {
        proto_version: 2,
        status: 2,
        height_type: 0,
        ew_direction: 0,
        speed_mult: 0,
        direction_raw: 0,
        speed_h_raw: 0,
        speed_v_raw: 0,
        lat_e7: 1,
        lon_e7: 1,
        alt_baro_raw: 0,
        alt_geo_raw: 0,
        height_raw: 0,
        vert_acc: 0,
        horiz_acc: 0,
        baro_acc: 0,
        speed_acc: 0,
        timestamp_raw: 0,
        ts_acc: 0,
    }
}

fn alt_f(raw: u16) -> Option<f32> {
    (raw != 0).then(|| f32::from(raw) * 0.5 - 1000.0)
}

fn speed_f(mult: u8, raw: u8) -> Option<f32> {
    let r = f32::from(raw);
    match (mult, raw) {
        (0, _) => Some(r * 0.25),
        (_, 255) => None,
        _ => Some(r * 0.75 + 63.75),
    }
}

fn opt(v: Option<f32>, prec: usize) -> String {
    match v {
        Some(v) => format!("{v:.prec$}"),
        None => "---".to_owned(),
    }
}

#[test]
fn altitudes_match_float_formatting() {
    for raw in 0..=u16::MAX {
        let mut l = loc();
        l.alt_geo_raw = raw;
        l.alt_baro_raw = raw;
        let t = track_with(l);
        let want = format!("ALT geo {}m baro {}m", opt(alt_f(raw), 1), opt(alt_f(raw), 1));
        assert_eq!(detail_line(5, &t, 0).as_str(), want);
        let row = row_info_line(&t);
        let want_alt = format!("A ALT {} SPD", opt(alt_f(raw), 0));
        assert!(row.as_str().starts_with(&want_alt), "{} vs {}", row.as_str(), want_alt);
    }
}

#[test]
fn speeds_and_headings_match_float_formatting() {
    for mult in 0..2u8 {
        for raw in 0..=255u8 {
            let mut l = loc();
            l.speed_mult = mult;
            l.speed_h_raw = raw;
            l.speed_v_raw = raw as i8;
            l.direction_raw = raw;
            l.ew_direction = mult;
            let t = track_with(l);
            let v = l.speed_v_raw;
            let vs = if v != 126 { format!("{:+.1}", f32::from(v) * 0.5) } else { "---".to_owned() };
            let trk = u16::from(raw) + if mult != 0 { 180 } else { 0 };
            let trk_s = if trk <= 360 { format!(" TRK {trk}") } else { " TRK ---".to_owned() };
            let want = format!("SPD {}m/s VS {vs}{trk_s}", opt(speed_f(mult, raw), 2));
            assert_eq!(detail_line(7, &t, 0).as_str(), want);
            let hdg = if trk <= 360 { format!(" HDG {trk:03}") } else { " HDG ---".to_owned() };
            let want = format!("A ALT --- SPD {}{hdg} 0dBm", opt(speed_f(mult, raw), 1));
            assert_eq!(row_info_line(&t).as_str(), want);
        }
    }
}

#[test]
fn timestamps_match_float_formatting() {
    for raw in 0..=36010u16 {
        let mut l = loc();
        l.timestamp_raw = raw;
        let t = track_with(l);
        let ts = (raw <= 36000).then(|| f32::from(raw) * 0.1);
        let want = format!("TS {}s past hour, fix age 0s", opt(ts, 1));
        assert_eq!(detail_line(8, &t, 0).as_str(), want);
    }
}

#[test]
fn positions_match_float_formatting() {
    let mut x: u32 = 0x9e37_79b9;
    let mut values: Vec<i32> = vec![
        0, 1, -1, 5, -5, 9_999_999, -9_999_999, 10_000_000, -10_000_000, 900_000_000, -900_000_000,
        1_800_000_000, -1_800_000_000, 337_000_001, -337_000_001,
    ];
    for _ in 0..20_000 {
        x ^= x << 13;
        x ^= x >> 17;
        x ^= x << 5;
        values.push((x % 1_800_000_001) as i32 * if x & 1 == 0 { 1 } else { -1 });
    }
    for (i, &lat) in values.iter().enumerate() {
        let lat = lat / 2;
        let lon = values[(i * 7 + 3) % values.len()];
        let mut l = loc();
        l.lat_e7 = lat;
        l.lon_e7 = lon;
        let t = track_with(l);
        let valid = !(lat == 0 && lon == 0)
            && lat.unsigned_abs() <= 900_000_000
            && lon.unsigned_abs() <= 1_800_000_000;
        let want = if valid {
            format!("LAT {:.7} LON {:.7}", f64::from(lat) * 1e-7, f64::from(lon) * 1e-7)
        } else {
            "LAT --- LON ---".to_owned()
        };
        assert_eq!(detail_line(4, &t, 0).as_str(), want);
        let mut u = track_with(l);
        u.system = Some(System {
            proto_version: 2,
            classification_type: 0,
            operator_location_type: 3,
            op_lat_e7: lat,
            op_lon_e7: lon,
            area_count: 0,
            area_radius_raw: 0,
            area_ceiling_raw: 0,
            area_floor_raw: 0,
            category_eu: 0,
            class_eu: 0,
            op_alt_geo_raw: lon as u16,
            timestamp: 0,
        });
        let want = if valid {
            format!("OP {:.7} {:.7}", f64::from(lat) * 1e-7, f64::from(lon) * 1e-7)
        } else {
            "OP --- ---".to_owned()
        };
        assert_eq!(detail_line(9, &u, 0).as_str(), want);
        let want = format!("OPALT {}m ---", opt(alt_f(lon as u16), 1));
        assert_eq!(detail_line(10, &u, 0).as_str(), want);
    }
}

#[test]
fn average_rssi_rounds_toward_zero() {
    for avg in [i16::MIN, -2048, -17, -16, -15, -1, 0, 1, 15, 16, 17, i16::MAX] {
        let mut t = track_with(loc());
        t.rssi_avg_x16 = avg;
        let row = row_info_line(&t);
        assert!(row.as_str().ends_with(&format!(" {}dBm", avg / 16)));
        assert!(detail_line(2, &t, 0).as_str().ends_with(&format!("({})", avg / 16)));
    }
}
