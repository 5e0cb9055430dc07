use rid_pocket::console::{console_line, console_line_of};
use rid_pocket::proto::FrameBuf;
use rid_pocket::proto::{Frame, Hello, Log, Obs, Payload, Status};

fn expected(f: &Frame) -> String {
    let seq = f.seq;
    match f.payload {
        Payload::Hello(h) => format!(
            "HELLO seq={seq} fw={} ch={}",
            core::str::from_utf8(&h.fw_version).unwrap_or("?").trim_end_matches('\0'),
            h.boot_channel
        ),
        Payload::Obs(o) => {
            let m = o.src_mac;
            format!(
                "OBS seq={seq} ch={} rssi={} mac={:02x}:{:02x}:{:02x}:{:02x}:{:02x}:{:02x} ctr={} pack={}B",
                o.channel, o.rssi_dbm, m[0], m[1], m[2], m[3], m[4], m[5], o.msg_counter, o.pack.len()
            )
        }
        Payload::Status(s) => format!(
            "STATUS seq={seq} up={}s ch={} mode={} trk={} heap={} counters={:?}",
            s.uptime_s, s.channel, s.mode, s.tracks_active, s.heap_free, s.counters
        ),
        Payload::Log(l) => format!(
            "LOG seq={seq} level={} {}",
            l.level,
            core::str::from_utf8(l.text).unwrap_or("?")
        ),
    }
}

fn check(f: Frame) {
    assert_eq!(String::from_utf8(console_line(&f)).unwrap(), expected(&f));
}

#[test]
fn console_lines_of_each_frame_type() {
    check(Frame {
        seq: 0,
        t_dev_us: 1,
        payload: Payload::Hello(Hello {
            fw_version: *b"0.1.0\0\0\0\0\0\0\0\0\0\0\0",
            git_sha: *b"abcdef12",
            device_mac: [1; 6],
            boot_channel: 6,
        }),
    });
    check(Frame {
        seq: 7,
        t_dev_us: 1,
        payload: Payload::Hello(Hello {
            fw_version: [0xff; 16],
            git_sha: [0; 8],
            device_mac: [1; 6],
            boot_channel: 11,
        }),
    });
    check(Frame {
        seq: u32::MAX,
        t_dev_us: 1,
        payload: Payload::Obs(Obs {
            channel: 6,
            rssi_dbm: -128,
            source: 1,
            src_mac: [0x02, 0x11, 0xab, 0, 0xff, 9],
            msg_counter: 42,
            t_mac_us: 5,
            ie_len: 8,
            pack: &[1, 2, 3],
        }),
    });
    check(Frame {
        seq: 12,
        t_dev_us: 1,
        payload: Payload::Status(Status {
            uptime_s: 4_000_000_000,
            channel: 1,
            mode: 1,
            tracks_active: 3,
            heap_free: 65536,
            counters: [0, 1, 22, 333, 4444, 55555, 666666, 7777777, u32::MAX],
        }),
    });
    check(Frame { seq: 3, t_dev_us: 1, payload: Payload::Log(Log { level: 3, text: b"radio up ch=6" }) });
    check(Frame { seq: 4, t_dev_us: 1, payload: Payload::Log(Log { level: 1, text: &[0xc3, 0x28] }) });
    check(Frame { seq: 5, t_dev_us: 1, payload: Payload::Log(Log { level: 2, text: "h\u{e9}".as_bytes() }) });
}

#[test]
fn console_lines_of_wire_bytes() {
    let f = Frame { seq: 9, t_dev_us: 2, payload: Payload::Log(Log { level: 2, text: b"hi" }) };
    let fb = FrameBuf::encode(&f).unwrap();
    let line = console_line_of(fb.as_bytes()).unwrap();
    assert_eq!(String::from_utf8(line).unwrap(), "LOG seq=9 level=2 hi");
    // Not COBS, and COBS that is no frame.
    assert_eq!(console_line_of(&[0x05, 1, 0]), None);
    assert_eq!(console_line_of(&[0x03, 1, 2, 0]), None);
    let mut bad = fb.as_bytes().to_vec();
    bad[3] ^= 0x40;
    assert_eq!(console_line_of(&bad), None);
}
