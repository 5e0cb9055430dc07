use rid_pocket::cobs::cobs_encode;
use rid_pocket::encode::{build_pack, encode_auth, encode_basic_id};
use rid_pocket::message::{AuthPage, BasicId, Message};
use rid_pocket::host::{
    chunk_event, frame_event, pack_contents, pack_error_name, payload_name, unstuff, Chunk, Deframer, Event, SeqEvent, SeqTracker, Stats,
};
use rid_pocket::pack::{parse_pack, PackError};
use rid_pocket::proto::{
    crc32, decode_raw, encode_raw, Frame, FrameBuf, FrameError, Hello, Log, Payload, Status, MAX_RAW,
    TYPE_HELLO, TYPE_LOG, TYPE_STATUS,
};

fn hello() -> Payload<'static> {
    Payload::Hello(Hello {
        fw_version: *b"0.1.0\0\0\0\0\0\0\0\0\0\0\0",
        git_sha: *b"abcdef12",
        device_mac: [1, 2, 3, 4, 5, 6],
        boot_channel: 6,
    })
}

fn wire(seq: u32, payload: Payload) -> Vec<u8> {
    FrameBuf::encode(&Frame { seq, t_dev_us: 5, payload }).unwrap().as_bytes().to_vec()
}

/// Runs a byte stream through the host pipeline, one piece at a time.
fn decode(pieces: &[&[u8]]) -> Stats {
    let mut d = Deframer::new();
    let mut t = SeqTracker::new();
    let mut s = Stats::new();
    for p in pieces {
        for chunk in d.feed(p) {
            let mut raw = vec![0u8; chunk.len()];
            let k = unstuff(&chunk, &mut raw);
            let r = match k {
                Chunk::Raw(n) => Some(decode_raw(&raw[..n])),
                _ => None,
            };
            let e = chunk_event(k, r.as_ref(), &mut t);
            assert!(s.has_room());
            s.record(e);
        }
    }
    s
}

#[test]
fn a_stream_of_frames_and_text_is_counted() {
    let mut stream = Vec::new();
    stream.extend(wire(0, hello()));
    stream.extend(wire(1, Payload::Log(Log { level: 3, text: b"radio up ch=6" })));
    stream.extend(b"[device] PANIC: test\r\n\0");
    stream.extend(wire(4, Payload::Status(Status {
        uptime_s: 12,
        channel: 6,
        mode: 0,
        tracks_active: 1,
        heap_free: 1000,
        counters: [0; 9],
    })));
    stream.extend(wire(2, Payload::Log(Log { level: 1, text: b"late" })));
    let s = decode(&[&stream]);
    assert_eq!(s.frames, 4);
    assert_eq!(s.hello, 1);
    assert_eq!(s.status, 1);
    assert_eq!(s.log, 2);
    assert_eq!(s.obs, 0);
    assert_eq!(s.text_chunks, 1);
    assert_eq!(s.seq_gaps, 2);
    assert_eq!(s.seq_reorder, 1);
    assert_eq!(s.bad_crc, 0);
    // The same stream cut into single bytes counts the same.
    let bytes: Vec<&[u8]> = stream.chunks(1).collect();
    assert_eq!(decode(&bytes), s);
}

#[test]
fn damaged_frames_are_counted_by_kind() {
    let mut bad_crc = wire(0, hello());
    // Change a byte of the version text; the frame stays COBS.
    let at = bad_crc.windows(5).position(|w| w == b"0.1.0").unwrap();
    bad_crc[at] = b'9';
    let mut raw = [0u8; MAX_RAW];
    let n = encode_raw(&Frame { seq: 1, t_dev_us: 0, payload: hello() }, &mut raw).unwrap();
    raw[0] = 9;
    let c = crc32(&raw[..n - 4]);
    raw[n - 4..n].copy_from_slice(&c.to_le_bytes());
    let mut unknown = vec![0u8; 300];
    let m = cobs_encode(&raw[..n], &mut unknown).unwrap();
    unknown.truncate(m);
    unknown.push(0);
    let short = [0x05, 1, 2, 3, 4, 0];
    let s = decode(&[&bad_crc, &unknown, &short]);
    assert_eq!(s.bad_crc, 1);
    assert_eq!(s.unknown, 1);
    assert_eq!(s.bad_frames, 1);
    assert_eq!(s.frames, 0);
}

#[test]
fn unstuff_separates_text_short_and_frames() {
    let mut raw = [0u8; 64];
    assert_eq!(unstuff(b"hello", &mut raw), Chunk::Text);
    assert_eq!(unstuff(&[0x03, 1, 2], &mut raw), Chunk::Short);
    let w = wire(9, Payload::Log(Log { level: 2, text: b"" }));
    let mut raw = vec![0u8; w.len()];
    match unstuff(&w[..w.len() - 1], &mut raw) {
        Chunk::Raw(n) => {
            let f = decode_raw(&raw[..n]).unwrap();
            assert_eq!(f.seq, 9);
        }
        other => panic!("{other:?}"),
    }
}

#[test]
fn frame_events() {
    let mut t = SeqTracker::new();
    assert_eq!(frame_event(&Err(FrameError::BadCrc), &mut t), Event::BadCrc);
    assert_eq!(frame_event(&Err(FrameError::BadLength), &mut t), Event::BadFrame);
    assert_eq!(frame_event(&Err(FrameError::Unknown), &mut t), Event::Unknown);
    assert_eq!(t.prev, None);
    let f = Frame { seq: 3, t_dev_us: 0, payload: hello() };
    assert_eq!(frame_event(&Ok(f), &mut t), Event::Frame { ty: TYPE_HELLO, seq: SeqEvent::Resync });
    let f = Frame { seq: 0, t_dev_us: 0, payload: hello() };
    assert_eq!(frame_event(&Ok(f), &mut t), Event::Frame { ty: TYPE_HELLO, seq: SeqEvent::Resync });
    let f = Frame { seq: 2, t_dev_us: 0, payload: Payload::Log(Log { level: 1, text: b"" }) };
    assert_eq!(
        frame_event(&Ok(f), &mut t),
        Event::Frame { ty: TYPE_LOG, seq: SeqEvent::Advance { missed: 1 } }
    );
}

#[test]
fn stats_record_each_event() {
    let mut s = Stats::new();
    s.record(Event::Frame { ty: TYPE_STATUS, seq: SeqEvent::Advance { missed: 7 } });
    s.record(Event::Frame { ty: 0x77, seq: SeqEvent::Reorder });
    s.record(Event::Text);
    assert_eq!(s.frames, 2);
    assert_eq!(s.status, 1);
    assert_eq!(s.log, 1);
    assert_eq!(s.seq_gaps, 7);
    assert_eq!(s.seq_reorder, 1);
    assert_eq!(s.text_chunks, 1);
    let full = Stats { bad_crc: u64::MAX, ..Stats::new() };
    assert!(!full.has_room());
}

#[test]
fn pack_error_names() {
    match parse_pack(&[0xF2, 25, 0]) {
        Err(e) => assert_eq!(pack_error_name(e), "Empty"),
        Ok(_) => panic!("an empty pack parsed"),
    }
    assert_eq!(pack_error_name(PackError::BadMessageSize(24)), "BadMessageSize");
    assert_eq!(pack_error_name(PackError::TooManyMessages(10)), "TooManyMessages");
    assert_eq!(pack_error_name(PackError::InvalidContent), "InvalidContent");
    assert_eq!(pack_error_name(PackError::TooShort), "TooShort");
    assert_eq!(pack_error_name(PackError::NotAPack), "NotAPack");
    assert_eq!(pack_error_name(PackError::Truncated), "Truncated");
}

#[test]
fn the_frame_after_the_wrap_is_no_gap() {
    let mut seq = u32::MAX;
    let a = rid_pocket::wire::send(&mut seq, 0, Payload::Log(Log { level: 3, text: b"a" })).unwrap();
    let b = rid_pocket::wire::send(&mut seq, 0, Payload::Log(Log { level: 3, text: b"b" })).unwrap();
    let s = decode(&[a.as_bytes(), b.as_bytes()]);
    assert_eq!(s.frames, 2);
    assert_eq!(s.seq_gaps, 0);
    assert_eq!(s.seq_reorder, 0);
    assert_eq!(s.frames, s.hello + s.obs + s.status + s.log);
    let mut t = SeqTracker { prev: Some(u32::MAX) };
    assert_eq!(t.observe(0, false), SeqEvent::Advance { missed: 0 });
    assert_eq!(t.prev, Some(0));
}

#[test]
fn pack_contents_decodes_every_message() {
    let id = BasicId { proto_version: 2, id_type: 1, ua_type: 2, uas_id: [0x41; 20] };
    let page = AuthPage { proto_version: 2, auth_type: 1, data_page: 1, data: [7; 23] };
    let msgs = [encode_basic_id(&id), encode_auth(&page)];
    let mut p = vec![0u8; 53];
    build_pack(&msgs, &mut p).unwrap();
    assert_eq!(
        pack_contents(&p).unwrap(),
        vec![Message::BasicId(id), Message::Auth(page)]
    );
    p[1] = 24;
    assert_eq!(pack_contents(&p), Err(PackError::BadMessageSize(24)));
}

#[test]
fn payload_names() {
    assert_eq!(payload_name(&hello()), "hello");
    assert_eq!(payload_name(&Payload::Log(Log { level: 1, text: b"" })), "log");
    let s = Status { uptime_s: 0, channel: 0, mode: 0, tracks_active: 0, heap_free: 0, counters: [0; 9] };
    assert_eq!(payload_name(&Payload::Status(s)), "status");
}

#[test]
fn chunk_events() {
    let mut t = SeqTracker { prev: Some(4) };
    assert_eq!(chunk_event(Chunk::Text, None, &mut t), Event::Text);
    assert_eq!(chunk_event(Chunk::Short, None, &mut t), Event::BadFrame);
    assert_eq!(t.prev, Some(4));
    let ok = Ok(Frame { seq: 6, t_dev_us: 0, payload: hello() });
    assert_eq!(
        chunk_event(Chunk::Raw(0), Some(&ok), &mut t),
        Event::Frame { ty: TYPE_HELLO, seq: SeqEvent::Advance { missed: 1 } }
    );
    assert_eq!(chunk_event(Chunk::Raw(0), Some(&Err(FrameError::BadCrc)), &mut t), Event::BadCrc);
}

#[test]
fn cobs_length_is_one_plus_a_code_per_full_run() {
    for (len, zero_every) in [(0usize, 0usize), (253, 0), (254, 0), (255, 0), (508, 0), (600, 300), (600, 100)] {
        let src: Vec<u8> = (0..len).map(|i| if zero_every > 0 && i % zero_every == zero_every - 1 { 0 } else { 7 }).collect();
        let mut dst = vec![0xEEu8; 1000];
        let n = cobs_encode(&src, &mut dst).unwrap();
        let runs: usize = src.split(|&b| b == 0).map(|r| r.len() / 254).sum();
        assert_eq!(n, len + 1 + runs);
        assert!(dst[..n].iter().all(|&b| b != 0));
        assert!(dst[n..].iter().all(|&b| b == 0xEE));
        let mut small = vec![0u8; n - 1];
        assert_eq!(cobs_encode(&src, &mut small), None);
    }
}
