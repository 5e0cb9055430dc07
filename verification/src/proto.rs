//! The framed protocol between the receiver and its host: a raw frame is a
//! 14-byte header, a typed payload and a CRC-32; on the wire it is
//! COBS-encoded and ends with a zero byte.

use vstd::prelude::*;

use crate::cobs::{
    cobs_dec, cobs_enc, cobs_encode, lemma_cobs_enc_bound, law_cobs_no_zero, law_cobs_roundtrip,
};
use crate::encode::{le32_bytes, lemma_le32, lemma_le32_bytes_at, lemma_signed_casts};
use crate::message::{le32, le32_at};

verus! {

broadcast use vstd::array::group_array_axioms;

pub const VERSION: u8 = 1;

pub const HEADER_LEN: usize = 14;

pub const PACK_CAP: usize = 228;

pub const MAX_RAW: usize = HEADER_LEN + 16 + PACK_CAP + 4;

pub const LOG_TEXT_CAP: usize = 200;

pub const TYPE_HELLO: u8 = 0x01;

pub const TYPE_OBS: u8 = 0x02;

pub const TYPE_STATUS: u8 = 0x03;

pub const TYPE_LOG: u8 = 0x04;

/// One shift of the reflected CRC-32 register: the low bit out, and the
/// reflected polynomial 0x04C11DB7 (0xEDB88320) in when it was set.
pub open spec fn crc32_shift(c: u32) -> u32 {
    if c & 1 == 1 {
        (c >> 1) ^ 0xEDB8_8320
    } else {
        c >> 1
    }
}

/// A byte through the register: XORed in at the low end, then eight shifts.
pub open spec fn crc32_byte(c: u32, b: u8) -> u32 {
    let x0 = c ^ (b as u32);
    let x1 = crc32_shift(x0);
    let x2 = crc32_shift(x1);
    let x3 = crc32_shift(x2);
    let x4 = crc32_shift(x3);
    let x5 = crc32_shift(x4);
    let x6 = crc32_shift(x5);
    let x7 = crc32_shift(x6);
    crc32_shift(x7)
}

/// The register after `data`, starting from 0xFFFFFFFF, each byte in turn
/// (input reflected: it enters at the low end).
pub open spec fn crc32_register(data: Seq<u8>) -> u32
    decreases data.len(),
{
    if data.len() == 0 {
        0xFFFF_FFFF
    } else {
        crc32_byte(crc32_register(data.drop_last()), data.last())
    }
}

/// The CRC-32/ISO-HDLC checksum of `data` (width 32, polynomial 0x04C11DB7,
/// initial value and final XOR 0xFFFFFFFF, input and output reflected).
pub open spec fn crc32_iso_hdlc(data: Seq<u8>) -> u32 {
    crc32_register(data) ^ 0xFFFF_FFFF
}

/// The check value that the catalogue gives for CRC-32/ISO-HDLC: the
/// checksum of the ASCII digits `123456789` is 0xCBF43926.
pub proof fn crc32_check_value()
    ensures
        crc32_iso_hdlc(seq![0x31u8, 0x32, 0x33, 0x34, 0x35, 0x36, 0x37, 0x38, 0x39]) == 0xCBF4_3926,
{
    assert(crc32_byte(
        crc32_byte(
            crc32_byte(
                crc32_byte(
                    crc32_byte(
                        crc32_byte(
                            crc32_byte(crc32_byte(crc32_byte(0xFFFF_FFFFu32, 0x31u8), 0x32u8), 0x33u8),
                            0x34u8,
                        ),
                        0x35u8,
                    ),
                    0x36u8,
                ),
                0x37u8,
            ),
            0x38u8,
        ),
        0x39u8,
    ) ^ 0xFFFF_FFFFu32 == 0xCBF4_3926u32) by (bit_vector);
    assert(seq![0x31u8, 0x32, 0x33, 0x34, 0x35, 0x36, 0x37, 0x38, 0x39].drop_last() =~= seq![0x31u8, 0x32, 0x33, 0x34, 0x35, 0x36, 0x37, 0x38]);
    assert(seq![0x31u8, 0x32, 0x33, 0x34, 0x35, 0x36, 0x37, 0x38].drop_last() =~= seq![0x31u8, 0x32, 0x33, 0x34, 0x35, 0x36, 0x37]);
    assert(seq![0x31u8, 0x32, 0x33, 0x34, 0x35, 0x36, 0x37].drop_last() =~= seq![0x31u8, 0x32, 0x33, 0x34, 0x35, 0x36]);
    assert(seq![0x31u8, 0x32, 0x33, 0x34, 0x35, 0x36].drop_last() =~= seq![0x31u8, 0x32, 0x33, 0x34, 0x35]);
    assert(seq![0x31u8, 0x32, 0x33, 0x34, 0x35].drop_last() =~= seq![0x31u8, 0x32, 0x33, 0x34]);
    assert(seq![0x31u8, 0x32, 0x33, 0x34].drop_last() =~= seq![0x31u8, 0x32, 0x33]);
    assert(seq![0x31u8, 0x32, 0x33].drop_last() =~= seq![0x31u8, 0x32]);
    assert(seq![0x31u8, 0x32].drop_last() =~= seq![0x31u8]);
    assert(seq![0x31u8].drop_last() =~= Seq::<u8>::empty());
    reveal_with_fuel(crc32_register, 10);
}

/// `crc::Crc::<u32>::checksum` with the `crc::CRC_32_ISO_HDLC` parameters,
/// which the `crc-catalog` crate documents as width 32, polynomial
/// 0x04C11DB7, initial value 0xFFFFFFFF, reflected input and output, final
/// XOR 0xFFFFFFFF: the checksum `crc32_iso_hdlc` states bit by bit.
#[verifier::external_body]
pub fn crc32(data: &[u8]) -> (r: u32)
    ensures
        r == crc32_iso_hdlc(data@),
{
    crc::Crc::<u32>::new(&crc::CRC_32_ISO_HDLC).checksum(data)
}

#[derive(Clone, Copy, Debug, PartialEq, Eq)]
pub struct Hello {
    pub fw_version: [u8; 16],
    pub git_sha: [u8; 8],
    pub device_mac: [u8; 6],
    pub boot_channel: u8,
}

#[derive(Clone, Copy, Debug, PartialEq, Eq)]
pub struct Obs<'a> {
    pub channel: u8,
    pub rssi_dbm: i8,
    pub source: u8,
    pub src_mac: [u8; 6],
    pub msg_counter: u8,
    pub t_mac_us: u32,
    pub ie_len: u8,
    pub pack: &'a [u8],
}

#[derive(Clone, Copy, Debug, PartialEq, Eq)]
pub struct Status {
    pub uptime_s: u32,
    pub channel: u8,
    pub mode: u8,
    pub tracks_active: u8,
    pub heap_free: u32,
    /// Order: mgmt, beacons, rid, beacon_err, pack_err, obs_drop, tx_drop,
    /// radio_err, log_drop.
    pub counters: [u32; 9],
}

#[derive(Clone, Copy, Debug, PartialEq, Eq)]
pub struct Log<'a> {
    pub level: u8,
    pub text: &'a [u8],
}

#[derive(Clone, Copy, Debug, PartialEq, Eq)]
pub enum Payload<'a> {
    Hello(Hello),
    Obs(Obs<'a>),
    Status(Status),
    Log(Log<'a>),
}

#[derive(Clone, Copy, Debug, PartialEq, Eq)]
pub struct Frame<'a> {
    pub seq: u32,
    pub t_dev_us: u64,
    pub payload: Payload<'a>,
}

#[derive(Clone, Copy, Debug, PartialEq, Eq)]
pub enum FrameError {
    /// Shorter than header + CRC, or payload length disagrees with its type.
    BadLength,
    BadCrc,
    /// `version` other than 1, or a type this decoder does not know.
    Unknown,
}

// ---------------------------------------------------------------------------
// Byte-level model
// ---------------------------------------------------------------------------

/// Eight bytes of `x`, least significant first.
pub open spec fn le64_bytes(x: u64) -> Seq<u8> {
    seq![
        (x % 0x100) as u8,
        ((x / 0x100) % 0x100) as u8,
        ((x / 0x10000) % 0x100) as u8,
        ((x / 0x1000000) % 0x100) as u8,
        ((x / 0x100000000) % 0x100) as u8,
        ((x / 0x10000000000) % 0x100) as u8,
        ((x / 0x1000000000000) % 0x100) as u8,
        (x / 0x100000000000000) as u8,
    ]
}

/// Little-endian `u64` stored at `m[i..i + 8]`.
pub open spec fn le64_at(m: Seq<u8>, i: int) -> u64 {
    (le32_at(m, i) + 0x100000000 * le32_at(m, i + 4)) as u64
}

/// The counters, four little-endian bytes each.
pub open spec fn counters_bytes(c: Seq<u32>) -> Seq<u8>
    decreases c.len(),
{
    if c.len() == 0 {
        seq![]
    } else {
        counters_bytes(c.drop_last()) + le32_bytes(c.last())
    }
}

pub open spec fn payload_type(p: Payload) -> u8 {
    match p {
        Payload::Hello(_) => TYPE_HELLO,
        Payload::Obs(_) => TYPE_OBS,
        Payload::Status(_) => TYPE_STATUS,
        Payload::Log(_) => TYPE_LOG,
    }
}

/// The variable-length fields are within their caps.
pub open spec fn payload_fits(p: Payload) -> bool {
    match p {
        Payload::Obs(o) => o.pack@.len() <= PACK_CAP,
        Payload::Log(l) => l.text@.len() <= LOG_TEXT_CAP,
        _ => true,
    }
}

pub open spec fn payload_bytes(p: Payload) -> Seq<u8> {
    match p {
        Payload::Hello(h) => h.fw_version@ + h.git_sha@ + h.device_mac@ + seq![h.boot_channel],
        Payload::Obs(o) => seq![o.channel, o.rssi_dbm as u8, o.source] + o.src_mac@ + seq![
            o.msg_counter,
        ] + le32_bytes(o.t_mac_us) + seq![o.ie_len, o.pack@.len() as u8] + o.pack@,
        Payload::Status(s) => le32_bytes(s.uptime_s) + seq![s.channel, s.mode, s.tracks_active, 0u8]
            + le32_bytes(s.heap_free) + counters_bytes(s.counters@),
        Payload::Log(l) => seq![l.level, l.text@.len() as u8] + l.text@,
    }
}

/// Version, type, sequence number and device time.
pub open spec fn frame_header(f: Frame) -> Seq<u8> {
    seq![VERSION, payload_type(f.payload)] + le32_bytes(f.seq) + le64_bytes(f.t_dev_us)
}

/// Header and payload: the bytes the CRC covers.
pub open spec fn frame_body(f: Frame) -> Seq<u8> {
    frame_header(f) + payload_bytes(f.payload)
}

/// The raw frame, or `None` when a field exceeds its cap.
pub open spec fn spec_encode_raw(f: Frame) -> Option<Seq<u8>> {
    if payload_fits(f.payload) {
        Some(frame_body(f) + le32_bytes(crc32_iso_hdlc(frame_body(f))))
    } else {
        None
    }
}

/// The bytes that encoding writes one after the other until it stops.
pub open spec fn frame_attempt(f: Frame) -> Seq<u8> {
    match spec_encode_raw(f) {
        Some(raw) => raw,
        None => frame_header(f),
    }
}

pub open spec fn obs_len_ok(p: Seq<u8>) -> bool {
    p.len() >= 16 && p.len() == 16 + p[15] && p[15] <= PACK_CAP
}

pub open spec fn log_len_ok(p: Seq<u8>) -> bool {
    p.len() >= 2 && p.len() == 2 + p[1] && p[1] <= LOG_TEXT_CAP
}

/// The payload length agrees with the type `ty`.
pub open spec fn payload_len_ok(ty: u8, p: Seq<u8>) -> bool {
    ||| ty == TYPE_HELLO && p.len() == 31
    ||| ty == TYPE_OBS && obs_len_ok(p)
    ||| ty == TYPE_STATUS && p.len() == 48
    ||| ty == TYPE_LOG && log_len_ok(p)
}

/// `v` is the payload of type `ty` held in the bytes `p`.
pub open spec fn payload_from(ty: u8, p: Seq<u8>, v: Payload) -> bool {
    match v {
        Payload::Hello(h) => {
            &&& ty == TYPE_HELLO
            &&& p.len() == 31
            &&& h.fw_version@ == p.subrange(0, 16)
            &&& h.git_sha@ == p.subrange(16, 24)
            &&& h.device_mac@ == p.subrange(24, 30)
            &&& h.boot_channel == p[30]
        },
        Payload::Obs(o) => {
            &&& ty == TYPE_OBS
            &&& obs_len_ok(p)
            &&& o.channel == p[0]
            &&& o.rssi_dbm == p[1] as i8
            &&& o.source == p[2]
            &&& o.src_mac@ == p.subrange(3, 9)
            &&& o.msg_counter == p[9]
            &&& o.t_mac_us == le32_at(p, 10)
            &&& o.ie_len == p[14]
            &&& o.pack@ == p.skip(16)
        },
        Payload::Status(s) => {
            &&& ty == TYPE_STATUS
            &&& p.len() == 48
            &&& s.uptime_s == le32_at(p, 0)
            &&& s.channel == p[4]
            &&& s.mode == p[5]
            &&& s.tracks_active == p[6]
            &&& s.heap_free == le32_at(p, 8)
            &&& forall|i: int| 0 <= i < 9 ==> #[trigger] s.counters@[i] == le32_at(p, 12 + 4 * i)
        },
        Payload::Log(l) => {
            &&& ty == TYPE_LOG
            &&& log_len_ok(p)
            &&& l.level == p[0]
            &&& l.text@ == p.skip(2)
        },
    }
}

/// `r` is what decoding the raw frame `raw` gives: length, then CRC, then
/// version and type are checked, in that order.
pub open spec fn raw_decodes_to(raw: Seq<u8>, r: Result<Frame, FrameError>) -> bool {
    if raw.len() < 18 {
        r == Err::<Frame, FrameError>(FrameError::BadLength)
    } else {
        let body = raw.take(raw.len() - 4);
        let h = body.take(14);
        let p = body.skip(14);
        if crc32_iso_hdlc(body) != le32_at(raw, raw.len() - 4) {
            r == Err::<Frame, FrameError>(FrameError::BadCrc)
        } else if h[0] != VERSION || !(TYPE_HELLO <= h[1] <= TYPE_LOG) {
            r == Err::<Frame, FrameError>(FrameError::Unknown)
        } else if !payload_len_ok(h[1], p) {
            r == Err::<Frame, FrameError>(FrameError::BadLength)
        } else {
            r matches Ok(f) && f.seq == le32_at(h, 2) && f.t_dev_us == le64_at(h, 6) && payload_from(
                h[1],
                p,
                f.payload,
            )
        }
    }
}

// ---------------------------------------------------------------------------
// Encoder
// ---------------------------------------------------------------------------

fn le32_array(x: u32) -> (r: [u8; 4])
    ensures
        r@ == le32_bytes(x),
{
    let r = [(x % 256) as u8, ((x / 256) % 256) as u8, ((x / 65536) % 256) as u8, (x / 16777216) as u8];
    assert(r@ =~= le32_bytes(x));
    r
}

fn le64_array(x: u64) -> (r: [u8; 8])
    ensures
        r@ == le64_bytes(x),
{
    let r = [
        (x % 0x100) as u8,
        ((x / 0x100) % 0x100) as u8,
        ((x / 0x10000) % 0x100) as u8,
        ((x / 0x1000000) % 0x100) as u8,
        ((x / 0x100000000) % 0x100) as u8,
        ((x / 0x10000000000) % 0x100) as u8,
        ((x / 0x1000000000000) % 0x100) as u8,
        (x / 0x100000000000000) as u8,
    ];
    assert(r@ =~= le64_bytes(x));
    r
}

/// Copies `b` into `out` at `at` when it fits; returns the position after it.
fn put(out: &mut [u8], at: usize, b: &[u8]) -> (r: Option<usize>)
    requires
        at <= old(out)@.len(),
    ensures
        final(out)@.len() == old(out)@.len(),
        r is Some <==> at + b@.len() <= old(out)@.len(),
        r matches Some(k) ==> k == at + b@.len() && final(out)@ == old(out)@.take(at as int) + b@
            + old(out)@.skip(at + b@.len()),
        r is None ==> final(out)@ == old(out)@,
{
    let len = out.len();
    let blen = b.len();
    if blen > len - at {
        return None;
    }
    let mut k: usize = 0;
    while k < blen
        invariant
            len == out@.len(),
            len == old(out)@.len(),
            blen == b@.len(),
            at + blen <= len,
            k <= blen,
            forall|j: int| 0 <= j < at ==> out@[j] == old(out)@[j],
            forall|j: int| 0 <= j < k ==> out@[at + j] == b@[j],
            forall|j: int| at + blen <= j < len ==> out@[j] == old(out)@[j],
        decreases blen - k,
    {
        out[at + k] = b[k];
        k = k + 1;
    }
    assert(out@ =~= old(out)@.take(at as int) + b@ + old(out)@.skip(at + blen));
    Some(at + blen)
}

/// `out` holds the first `n` bytes of `target` and its old bytes after them.
pub open spec fn written(out: Seq<u8>, old_out: Seq<u8>, target: Seq<u8>, n: int) -> bool {
    &&& 0 <= n <= old_out.len()
    &&& n <= target.len()
    &&& out == target.take(n) + old_out.skip(n)
}

/// Puts `b` as the next part of `target`, keeping `written`.
fn put_part(out: &mut [u8], at: usize, b: &[u8], Ghost(old_out): Ghost<Seq<u8>>, Ghost(target): Ghost<Seq<u8>>) -> (r: Option<usize>)
    requires
        written(old(out)@, old_out, target, at as int),
        at + b@.len() <= target.len(),
        target.subrange(at as int, at + b@.len()) == b@,
    ensures
        final(out)@.len() == old(out)@.len(),
        r is Some <==> at + b@.len() <= old_out.len(),
        r matches Some(k) ==> k == at + b@.len() && written(final(out)@, old_out, target, k as int),
        r is None ==> written(final(out)@, old_out, target, at as int),
{
    let r = put(out, at, b);
    assert(target.take(at + b@.len()) =~= target.take(at as int) + b@);
    proof {
        if r is Some {
            assert(out@ =~= target.take(at + b@.len()) + old_out.skip(at + b@.len()));
        }
    }
    r
}

proof fn lemma_counters_bytes(c: Seq<u32>)
    ensures
        counters_bytes(c).len() == 4 * c.len(),
        forall|i: int| #![auto] 0 <= i < c.len() ==> counters_bytes(c).subrange(4 * i, 4 * i + 4)
            == le32_bytes(c[i]),
    decreases c.len(),
{
    if c.len() > 0 {
        let init = c.drop_last();
        lemma_counters_bytes(init);
        let f = counters_bytes(c);
        assert forall|i: int| #![auto] 0 <= i < c.len() implies f.subrange(4 * i, 4 * i + 4)
            == le32_bytes(c[i]) by {
            if i < init.len() {
                assert(f.subrange(4 * i, 4 * i + 4) =~= counters_bytes(init).subrange(4 * i, 4 * i + 4));
                assert(init[i] == c[i]);
            } else {
                assert(f.subrange(4 * i, 4 * i + 4) =~= le32_bytes(c.last()));
            }
        }
    }
}

fn put_hello(out: &mut [u8], at: usize, h: &Hello, Ghost(old_out): Ghost<Seq<u8>>, Ghost(target): Ghost<Seq<u8>>) -> (r: Option<usize>)
    requires
        payload_fits(Payload::Hello(*h)),
        written(old(out)@, old_out, target, at as int),
        at + payload_bytes(Payload::Hello(*h)).len() <= target.len(),
        target.subrange(at as int, at + payload_bytes(Payload::Hello(*h)).len()) == payload_bytes(Payload::Hello(*h)),
    ensures
        final(out)@.len() == old(out)@.len(),
        r is Some <==> at + payload_bytes(Payload::Hello(*h)).len() <= old_out.len(),
        r matches Some(k) ==> k == at + payload_bytes(Payload::Hello(*h)).len() && written(
            final(out)@,
            old_out,
            target,
            k as int,
        ),
        r is None ==> exists|w: int| written(final(out)@, old_out, target, w),
{
    let ghost pb = payload_bytes(Payload::Hello(*h));
    let ghost sub = target.subrange(at as int, at + pb.len());
    assert(target.subrange(at as int, at + 16) =~= h.fw_version@) by {
        assert(target.subrange(at as int, at + 16) =~= sub.subrange(0, 16));
    }
    let n = match put_part(out, at, h.fw_version.as_slice(), Ghost(old_out), Ghost(target)) {
        Some(n) => n,
        None => return None,
    };
    assert(target.subrange(n as int, n + 8) =~= h.git_sha@) by {
        assert(target.subrange(n as int, n + 8) =~= sub.subrange(16, 24));
    }
    let n = match put_part(out, n, h.git_sha.as_slice(), Ghost(old_out), Ghost(target)) {
        Some(n) => n,
        None => return None,
    };
    assert(target.subrange(n as int, n + 6) =~= h.device_mac@) by {
        assert(target.subrange(n as int, n + 6) =~= sub.subrange(24, 30));
    }
    let n = match put_part(out, n, h.device_mac.as_slice(), Ghost(old_out), Ghost(target)) {
        Some(n) => n,
        None => return None,
    };
    let last = [h.boot_channel];
    assert(target.subrange(n as int, n + 1) =~= last@) by {
        assert(target.subrange(n as int, n + 1) =~= sub.subrange(30, 31));
    }
    put_part(out, n, last.as_slice(), Ghost(old_out), Ghost(target))
}

fn put_obs(out: &mut [u8], at: usize, o: &Obs, Ghost(old_out): Ghost<Seq<u8>>, Ghost(target): Ghost<Seq<u8>>) -> (r: Option<usize>)
    requires
        payload_fits(Payload::Obs(*o)),
        written(old(out)@, old_out, target, at as int),
        at + payload_bytes(Payload::Obs(*o)).len() <= target.len(),
        target.subrange(at as int, at + payload_bytes(Payload::Obs(*o)).len()) == payload_bytes(Payload::Obs(*o)),
    ensures
        final(out)@.len() == old(out)@.len(),
        r is Some <==> at + payload_bytes(Payload::Obs(*o)).len() <= old_out.len(),
        r matches Some(k) ==> k == at + payload_bytes(Payload::Obs(*o)).len() && written(
            final(out)@,
            old_out,
            target,
            k as int,
        ),
        r is None ==> exists|w: int| written(final(out)@, old_out, target, w),
{
    let ghost pb = payload_bytes(Payload::Obs(*o));
    let ghost sub = target.subrange(at as int, at + pb.len());
    let head = [o.channel, o.rssi_dbm as u8, o.source];
    assert(target.subrange(at as int, at + 3) =~= head@) by {
        assert(target.subrange(at as int, at + 3) =~= sub.subrange(0, 3));
    }
    let n = match put_part(out, at, head.as_slice(), Ghost(old_out), Ghost(target)) {
        Some(n) => n,
        None => return None,
    };
    assert(target.subrange(n as int, n + 6) =~= o.src_mac@) by {
        assert(target.subrange(n as int, n + 6) =~= sub.subrange(3, 9));
    }
    let n = match put_part(out, n, o.src_mac.as_slice(), Ghost(old_out), Ghost(target)) {
        Some(n) => n,
        None => return None,
    };
    let ctr = [o.msg_counter];
    assert(target.subrange(n as int, n + 1) =~= ctr@) by {
        assert(target.subrange(n as int, n + 1) =~= sub.subrange(9, 10));
    }
    let n = match put_part(out, n, ctr.as_slice(), Ghost(old_out), Ghost(target)) {
        Some(n) => n,
        None => return None,
    };
    let t = le32_array(o.t_mac_us);
    assert(target.subrange(n as int, n + 4) =~= t@) by {
        assert(target.subrange(n as int, n + 4) =~= sub.subrange(10, 14));
    }
    let n = match put_part(out, n, t.as_slice(), Ghost(old_out), Ghost(target)) {
        Some(n) => n,
        None => return None,
    };
    let lens = [o.ie_len, o.pack.len() as u8];
    assert(target.subrange(n as int, n + 2) =~= lens@) by {
        assert(target.subrange(n as int, n + 2) =~= sub.subrange(14, 16));
    }
    let n = match put_part(out, n, lens.as_slice(), Ghost(old_out), Ghost(target)) {
        Some(n) => n,
        None => return None,
    };
    assert(target.subrange(n as int, n + o.pack@.len()) =~= o.pack@) by {
        assert(target.subrange(n as int, n + o.pack@.len()) =~= sub.subrange(16, pb.len() as int));
    }
    put_part(out, n, o.pack, Ghost(old_out), Ghost(target))
}

fn put_status(out: &mut [u8], at: usize, st: &Status, Ghost(old_out): Ghost<Seq<u8>>, Ghost(target): Ghost<Seq<u8>>) -> (r: Option<usize>)
    requires
        payload_fits(Payload::Status(*st)),
        written(old(out)@, old_out, target, at as int),
        at + payload_bytes(Payload::Status(*st)).len() <= target.len(),
        target.subrange(at as int, at + payload_bytes(Payload::Status(*st)).len()) == payload_bytes(Payload::Status(*st)),
    ensures
        final(out)@.len() == old(out)@.len(),
        r is Some <==> at + payload_bytes(Payload::Status(*st)).len() <= old_out.len(),
        r matches Some(k) ==> k == at + payload_bytes(Payload::Status(*st)).len() && written(
            final(out)@,
            old_out,
            target,
            k as int,
        ),
        r is None ==> exists|w: int| written(final(out)@, old_out, target, w),
{
    let ghost pb = payload_bytes(Payload::Status(*st));
    let ghost sub = target.subrange(at as int, at + pb.len());
    proof {
        lemma_counters_bytes(st.counters@);
    }
    let up = le32_array(st.uptime_s);
    assert(target.subrange(at as int, at + 4) =~= up@) by {
        assert(target.subrange(at as int, at + 4) =~= sub.subrange(0, 4));
    }
    let n = match put_part(out, at, up.as_slice(), Ghost(old_out), Ghost(target)) {
        Some(n) => n,
        None => return None,
    };
    let mid = [st.channel, st.mode, st.tracks_active, 0];
    assert(target.subrange(n as int, n + 4) =~= mid@) by {
        assert(target.subrange(n as int, n + 4) =~= sub.subrange(4, 8));
    }
    let n = match put_part(out, n, mid.as_slice(), Ghost(old_out), Ghost(target)) {
        Some(n) => n,
        None => return None,
    };
    let heap = le32_array(st.heap_free);
    assert(target.subrange(n as int, n + 4) =~= heap@) by {
        assert(target.subrange(n as int, n + 4) =~= sub.subrange(8, 12));
    }
    let mut n = match put_part(out, n, heap.as_slice(), Ghost(old_out), Ghost(target)) {
        Some(n) => n,
        None => return None,
    };
    let ghost cb = counters_bytes(st.counters@);
    assert(target.subrange(n as int, n + 36) =~= cb) by {
        assert(target.subrange(n as int, n + 36) =~= sub.subrange(12, 48));
    }
    put_counters(out, n, &st.counters, Ghost(old_out), Ghost(target))
}


/// Writes the nine counters, four little-endian bytes each.
fn put_counters(out: &mut [u8], at: usize, counters: &[u32; 9], Ghost(old_out): Ghost<Seq<u8>>, Ghost(target): Ghost<Seq<u8>>) -> (r: Option<usize>)
    requires
        written(old(out)@, old_out, target, at as int),
        at + 36 <= target.len(),
        target.subrange(at as int, at + 36) == counters_bytes(counters@),
    ensures
        final(out)@.len() == old(out)@.len(),
        r is Some <==> at + 36 <= old_out.len(),
        r matches Some(k) ==> k == at + 36 && written(final(out)@, old_out, target, k as int),
        r is None ==> exists|w: int| written(final(out)@, old_out, target, w),
{
    let ghost cb = counters_bytes(counters@);
    proof {
        lemma_counters_bytes(counters@);
    }
    let mut n = at;
    let mut i: usize = 0;
    while i < 9
        invariant
            i <= 9,
            n == at + 4 * i,
            at + 36 <= target.len(),
            written(out@, old_out, target, n as int),
            out@.len() == old(out)@.len(),
            target.subrange(at as int, at + 36) == cb,
            cb == counters_bytes(counters@),
            forall|k: int| #![auto] 0 <= k < 9 ==> cb.subrange(4 * k, 4 * k + 4) == le32_bytes(
                counters@[k],
            ),
        decreases 9 - i,
    {
        let c = le32_array(counters[i]);
        assert(target.subrange(n as int, n + 4) =~= c@) by {
            assert(target.subrange(n as int, n + 4) =~= cb.subrange(4 * i, 4 * i + 4));
        }
        n = match put_part(out, n, c.as_slice(), Ghost(old_out), Ghost(target)) {
            Some(n) => n,
            None => return None,
        };
        i = i + 1;
    }
    Some(n)
}

fn put_log(out: &mut [u8], at: usize, l: &Log, Ghost(old_out): Ghost<Seq<u8>>, Ghost(target): Ghost<Seq<u8>>) -> (r: Option<usize>)
    requires
        payload_fits(Payload::Log(*l)),
        written(old(out)@, old_out, target, at as int),
        at + payload_bytes(Payload::Log(*l)).len() <= target.len(),
        target.subrange(at as int, at + payload_bytes(Payload::Log(*l)).len()) == payload_bytes(Payload::Log(*l)),
    ensures
        final(out)@.len() == old(out)@.len(),
        r is Some <==> at + payload_bytes(Payload::Log(*l)).len() <= old_out.len(),
        r matches Some(k) ==> k == at + payload_bytes(Payload::Log(*l)).len() && written(
            final(out)@,
            old_out,
            target,
            k as int,
        ),
        r is None ==> exists|w: int| written(final(out)@, old_out, target, w),
{
    let ghost pb = payload_bytes(Payload::Log(*l));
    let ghost sub = target.subrange(at as int, at + pb.len());
    let head = [l.level, l.text.len() as u8];
    assert(target.subrange(at as int, at + 2) =~= head@) by {
        assert(target.subrange(at as int, at + 2) =~= sub.subrange(0, 2));
    }
    let n = match put_part(out, at, head.as_slice(), Ghost(old_out), Ghost(target)) {
        Some(n) => n,
        None => return None,
    };
    assert(target.subrange(n as int, n + l.text@.len()) =~= l.text@) by {
        assert(target.subrange(n as int, n + l.text@.len()) =~= sub.subrange(2, pb.len() as int));
    }
    put_part(out, n, l.text, Ghost(old_out), Ghost(target))
}

/// Writes the raw frame (header, payload, CRC) into `out`; returns its
/// length. `None` when a field exceeds its cap or `out` is too small; `out`
/// then holds a prefix of what was being written.
pub fn encode_raw(frame: &Frame, out: &mut [u8]) -> (r: Option<usize>)
    ensures
        final(out)@.len() == old(out)@.len(),
        r is Some <==> (spec_encode_raw(*frame) matches Some(raw) && raw.len() <= old(out)@.len()),
        r matches Some(n) ==> (spec_encode_raw(*frame) matches Some(raw) && n == raw.len() && final(out)@ == raw + old(out)@.skip(n as int)),
        r is None ==> exists|w: int| written(final(out)@, old(out)@, frame_attempt(*frame), w),
{
    let ghost old_out = out@;
    let ghost target = frame_attempt(*frame);
    let ghost hdr_bytes = frame_header(*frame);
    let ghost pb = payload_bytes(frame.payload);
    let ty: u8 = match &frame.payload {
        Payload::Hello(_) => TYPE_HELLO,
        Payload::Obs(_) => TYPE_OBS,
        Payload::Status(_) => TYPE_STATUS,
        Payload::Log(_) => TYPE_LOG,
    };
    assert(hdr_bytes.len() == 14);
    assert(target.subrange(0, 14) =~= hdr_bytes);
    assert(written(out@, old_out, target, 0)) by {
        assert(out@ =~= target.take(0) + old_out.skip(0));
    }
    let hdr = [VERSION, ty];
    assert(target.subrange(0, 2) =~= hdr@) by {
        assert(target.subrange(0, 2) =~= hdr_bytes.subrange(0, 2));
    }
    let n = match put_part(out, 0, hdr.as_slice(), Ghost(old_out), Ghost(target)) {
        Some(n) => n,
        None => return None,
    };
    let sq = le32_array(frame.seq);
    assert(target.subrange(2, 6) =~= sq@) by {
        assert(target.subrange(2, 6) =~= hdr_bytes.subrange(2, 6));
    }
    let n = match put_part(out, n, sq.as_slice(), Ghost(old_out), Ghost(target)) {
        Some(n) => n,
        None => return None,
    };
    let t = le64_array(frame.t_dev_us);
    assert(target.subrange(6, 14) =~= t@) by {
        assert(target.subrange(6, 14) =~= hdr_bytes.subrange(6, 14));
    }
    let n = match put_part(out, n, t.as_slice(), Ghost(old_out), Ghost(target)) {
        Some(n) => n,
        None => return None,
    };
    let fits = match &frame.payload {
        Payload::Obs(o) => o.pack.len() <= PACK_CAP,
        Payload::Log(l) => l.text.len() <= LOG_TEXT_CAP,
        _ => true,
    };
    if !fits {
        return None;
    }
    let ghost body = frame_body(*frame);
    let ghost raw = body + le32_bytes(crc32_iso_hdlc(body));
    assert(target == raw);
    assert(target.subrange(14, 14 + pb.len() as int) =~= pb);
    let n = match &frame.payload {
        Payload::Hello(h) => put_hello(out, n, h, Ghost(old_out), Ghost(target)),
        Payload::Obs(o) => put_obs(out, n, o, Ghost(old_out), Ghost(target)),
        Payload::Status(st) => put_status(out, n, st, Ghost(old_out), Ghost(target)),
        Payload::Log(l) => put_log(out, n, l, Ghost(old_out), Ghost(target)),
    };
    let n = match n {
        Some(n) => n,
        None => return None,
    };
    let covered = vstd::slice::slice_subrange(out, 0, n);
    assert(covered@ =~= body);
    let crc = le32_array(crc32(covered));
    assert(target.subrange(n as int, n + 4) =~= crc@);
    let n = match put_part(out, n, crc.as_slice(), Ghost(old_out), Ghost(target)) {
        Some(n) => n,
        None => return None,
    };
    assert(target.take(n as int) =~= raw);
    Some(n)
}

// ---------------------------------------------------------------------------
// Decoder
// ---------------------------------------------------------------------------

fn le32_from(b: &[u8], at: usize) -> (r: u32)
    requires
        at + 4 <= b@.len(),
    ensures
        r == le32_at(b@, at as int),
{
    (b[at] as u32) + (b[at + 1] as u32) * 256 + (b[at + 2] as u32) * 65536 + (b[at + 3] as u32)
        * 16777216
}

fn le64_from(b: &[u8], at: usize) -> (r: u64)
    requires
        at + 8 <= b@.len(),
    ensures
        r == le64_at(b@, at as int),
{
    let blen = b.len();
    assert(at + 8 <= blen);
    (le32_from(b, at) as u64) + (le32_from(b, at + 4) as u64) * 0x100000000
}

/// Copies `src[at..at + dst.len()]` into `dst`.
fn copy_from(dst: &mut [u8], src: &[u8], at: usize)
    requires
        at + old(dst)@.len() <= src@.len(),
    ensures
        final(dst)@ == src@.subrange(at as int, at + old(dst)@.len()),
{
    let n = dst.len();
    let slen = src.len();
    let mut k: usize = 0;
    while k < n
        invariant
            n == dst@.len(),
            n == old(dst)@.len(),
            slen == src@.len(),
            at + n <= slen,
            k <= n,
            forall|j: int| 0 <= j < k ==> dst@[j] == src@[at + j],
        decreases n - k,
    {
        dst[k] = src[at + k];
        k = k + 1;
    }
    assert(dst@ =~= src@.subrange(at as int, at + n));
}

/// Decodes one raw (already COBS-decoded) frame.
pub fn decode_raw(raw: &[u8]) -> (r: Result<Frame<'_>, FrameError>)
    ensures
        raw_decodes_to(raw@, r),
{
    let len = raw.len();
    if len < 4 || len - 4 < HEADER_LEN {
        return Err(FrameError::BadLength);
    }
    let body = vstd::slice::slice_subrange(raw, 0, len - 4);
    assert(body@ == raw@.take(len - 4));
    let stored = le32_from(raw, len - 4);
    if crc32(body) != stored {
        return Err(FrameError::BadCrc);
    }
    let blen = body.len();
    let h = vstd::slice::slice_subrange(body, 0, HEADER_LEN);
    let p = vstd::slice::slice_subrange(body, HEADER_LEN, blen);
    assert(h@ == body@.take(14));
    assert(p@ == body@.skip(14));
    let seq = le32_from(h, 2);
    let t_dev_us = le64_from(h, 6);
    if h[0] != VERSION {
        return Err(FrameError::Unknown);
    }
    let ty = h[1];
    let plen = p.len();
    let payload = if ty == TYPE_HELLO && plen == 31 {
        let mut fw_version = [0u8; 16];
        copy_from(&mut fw_version, p, 0);
        let mut git_sha = [0u8; 8];
        copy_from(&mut git_sha, p, 16);
        let mut device_mac = [0u8; 6];
        copy_from(&mut device_mac, p, 24);
        Payload::Hello(Hello { fw_version, git_sha, device_mac, boot_channel: p[30] })
    } else if ty == TYPE_OBS && plen >= 16 && plen == 16 + p[15] as usize && p[15] as usize
        <= PACK_CAP {
        let mut src_mac = [0u8; 6];
        copy_from(&mut src_mac, p, 3);
        let pack = vstd::slice::slice_subrange(p, 16, plen);
        assert(pack@ =~= p@.skip(16));
        Payload::Obs(
            Obs {
                channel: p[0],
                rssi_dbm: p[1] as i8,
                source: p[2],
                src_mac,
                msg_counter: p[9],
                t_mac_us: le32_from(p, 10),
                ie_len: p[14],
                pack,
            },
        )
    } else if ty == TYPE_STATUS && plen == 48 {
        let mut counters = [0u32; 9];
        let mut i: usize = 0;
        while i < 9
            invariant
                plen == p@.len(),
                plen == 48,
                i <= 9,
                forall|k: int| 0 <= k < i ==> #[trigger] counters@[k] == le32_at(p@, 12 + 4 * k),
            decreases 9 - i,
        {
            counters[i] = le32_from(p, 12 + 4 * i);
            i = i + 1;
        }
        Payload::Status(
            Status {
                uptime_s: le32_from(p, 0),
                channel: p[4],
                mode: p[5],
                tracks_active: p[6],
                heap_free: le32_from(p, 8),
                counters,
            },
        )
    } else if ty == TYPE_LOG && plen >= 2 && plen == 2 + p[1] as usize && p[1] as usize
        <= LOG_TEXT_CAP {
        let text = vstd::slice::slice_subrange(p, 2, plen);
        assert(text@ =~= p@.skip(2));
        Payload::Log(Log { level: p[0], text })
    } else if TYPE_HELLO <= ty && ty <= TYPE_LOG {
        return Err(FrameError::BadLength);
    } else {
        return Err(FrameError::Unknown);
    };
    Ok(Frame { seq, t_dev_us, payload })
}

// ---------------------------------------------------------------------------
// Wire frames
// ---------------------------------------------------------------------------

/// A COBS-encoded frame and its trailing zero, ready to send.
pub struct FrameBuf {
    pub len: u16,
    pub bytes: [u8; 320],
}

proof fn lemma_raw_len(f: Frame)
    requires
        spec_encode_raw(f) is Some,
    ensures
        spec_encode_raw(f)->0.len() == frame_body(f).len() + 4,
        18 <= spec_encode_raw(f)->0.len() <= MAX_RAW,
{
    lemma_counters_bytes_len(f.payload);
}

proof fn lemma_counters_bytes_len(p: Payload)
    ensures
        p matches Payload::Status(s) ==> counters_bytes(s.counters@).len() == 36,
{
    if let Payload::Status(s) = p {
        lemma_counters_bytes(s.counters@);
    }
}

impl FrameBuf {
    /// COBS-encoded wire frame including the trailing `0x00`. `None` if a
    /// field exceeds its cap.
    pub fn encode(frame: &Frame) -> (r: Option<FrameBuf>)
        ensures
            r is Some <==> spec_encode_raw(*frame) is Some,
            r matches Some(fb) ==> (spec_encode_raw(*frame) matches Some(raw) && fb.len
                == cobs_enc(raw).len() + 1 && fb.bytes@.take(fb.len as int) == cobs_enc(raw).push(
                0u8,
            )),
    {
        let mut raw = [0u8; 262];
        proof {
            if spec_encode_raw(*frame) is Some {
                lemma_raw_len(*frame);
            }
        }
        let n = match encode_raw(frame, &mut raw) {
            Some(n) => n,
            None => return None,
        };
        let ghost raw_bytes = spec_encode_raw(*frame)->0;
        let filled = vstd::slice::slice_subrange(raw.as_slice(), 0, n);
        assert(filled@ =~= raw_bytes);
        proof {
            lemma_cobs_enc_bound(raw_bytes);
        }
        let mut fb = FrameBuf { len: 0, bytes: [0u8; 320] };
        let c = match cobs_encode(filled, &mut fb.bytes) {
            Some(c) => c,
            None => return None,
        };
        if c >= 320 {
            return None;
        }
        fb.bytes[c] = 0;
        fb.len = (c + 1) as u16;
        assert(fb.bytes@.take(fb.len as int) =~= cobs_enc(raw_bytes).push(0u8));
        Some(fb)
    }

    /// The encoded frame, trailing zero included.
    pub fn as_bytes(&self) -> (r: &[u8])
        ensures
            r@ == if self.len <= 320 {
                self.bytes@.take(self.len as int)
            } else {
                Seq::<u8>::empty()
            },
    {
        let n = self.len as usize;
        if n <= 320 {
            vstd::slice::slice_subrange(self.bytes.as_slice(), 0, n)
        } else {
            vstd::slice::slice_subrange(self.bytes.as_slice(), 0, 0)
        }
    }
}

// ---------------------------------------------------------------------------
// Laws
// ---------------------------------------------------------------------------

proof fn lemma_le64(x: u64)
    ensures
        le64_at(le64_bytes(x), 0) == x,
{
    let b = le64_bytes(x);
    assert((x % 0x100) + 256 * ((x / 0x100) % 0x100) + 65536 * ((x / 0x10000) % 0x100) + 16777216
        * ((x / 0x1000000) % 0x100) == x % 0x100000000) by (bit_vector);
    assert(((x / 0x100000000) % 0x100) + 256 * ((x / 0x10000000000) % 0x100) + 65536 * ((x
        / 0x1000000000000) % 0x100) + 16777216 * (x / 0x100000000000000) == x / 0x100000000)
        by (bit_vector);
    assert(x % 0x100000000 + 0x100000000 * (x / 0x100000000) == x) by (bit_vector);
    assert(le32_at(b, 0) == x % 0x100000000);
    assert(le32_at(b, 4) == x / 0x100000000);
}

#[verifier::spinoff_prover]
#[verifier::rlimit(40)]
proof fn lemma_payload_roundtrip(p: Payload)
    requires
        payload_fits(p),
    ensures
        payload_len_ok(payload_type(p), payload_bytes(p)),
        payload_from(payload_type(p), payload_bytes(p), p),
{
    let b = payload_bytes(p);
    match p {
        Payload::Hello(h) => {
            assert(h.fw_version@ =~= b.subrange(0, 16));
            assert(h.git_sha@ =~= b.subrange(16, 24));
            assert(h.device_mac@ =~= b.subrange(24, 30));
        },
        Payload::Obs(o) => {
            lemma_le32(o.t_mac_us);
            lemma_signed_casts(0, 0, o.rssi_dbm, 0);
            assert(o.src_mac@ =~= b.subrange(3, 9));
            assert(o.pack@ =~= b.skip(16));
            assert(le32_at(b, 10) == o.t_mac_us);
        },
        Payload::Status(s) => {
            lemma_counters_bytes(s.counters@);
            lemma_le32(s.uptime_s);
            lemma_le32(s.heap_free);
            assert(le32_at(b, 0) == s.uptime_s);
            assert(le32_at(b, 8) == s.heap_free);
            let cb = counters_bytes(s.counters@);
            assert forall|i: int| 0 <= i < 9 implies #[trigger] s.counters@[i] == le32_at(
                b,
                12 + 4 * i,
            ) by {
                lemma_le32(s.counters@[i]);
                assert(cb.subrange(4 * i, 4 * i + 4) == le32_bytes(s.counters@[i]));
                assert(b[12 + 4 * i] == cb[4 * i]);
                assert(b[13 + 4 * i] == cb[4 * i + 1]);
                assert(b[14 + 4 * i] == cb[4 * i + 2]);
                assert(b[15 + 4 * i] == cb[4 * i + 3]);
            }
        },
        Payload::Log(l) => {
            assert(l.text@ =~= b.skip(2));
        },
    }
}

/// Decoding the raw encoding of a frame whose fields fit their caps gives
/// the frame back.
pub proof fn law_frame_roundtrip(f: Frame)
    requires
        spec_encode_raw(f) is Some,
    ensures
        raw_decodes_to(spec_encode_raw(f)->0, Ok(f)),
{
    let raw = spec_encode_raw(f)->0;
    let body = frame_body(f);
    let hd = frame_header(f);
    lemma_raw_len(f);
    lemma_le32(crc32_iso_hdlc(body));
    lemma_le32(f.seq);
    lemma_le64(f.t_dev_us);
    lemma_payload_roundtrip(f.payload);
    assert(raw.take(raw.len() - 4) =~= body);
    assert(le32_at(raw, raw.len() - 4) == crc32_iso_hdlc(body));
    assert(body.take(14) =~= hd);
    assert(body.skip(14) =~= payload_bytes(f.payload));
    assert(le32_at(hd, 2) == f.seq);
    assert(le64_at(hd, 6) == le64_at(le64_bytes(f.t_dev_us), 0)) by {
        assert(hd.subrange(6, 14) =~= le64_bytes(f.t_dev_us));
    }
}

/// What a raw frame decodes to is determined by its bytes.
pub proof fn law_raw_decode_unique(
    raw: Seq<u8>,
    r1: Result<Frame, FrameError>,
    r2: Result<Frame, FrameError>,
)
    requires
        raw_decodes_to(raw, r1),
        raw_decodes_to(raw, r2),
    ensures
        r1 == r2,
{
    broadcast use vstd::slice::group_slice_axioms;

    if let (Ok(a), Ok(b)) = (r1, r2) {
        match (a.payload, b.payload) {
            (Payload::Hello(x), Payload::Hello(y)) => {
                assert(x.fw_version =~= y.fw_version);
                assert(x.git_sha =~= y.git_sha);
                assert(x.device_mac =~= y.device_mac);
            },
            (Payload::Obs(x), Payload::Obs(y)) => {
                assert(x.src_mac =~= y.src_mac);
                assert(x.pack =~= y.pack);
            },
            (Payload::Status(x), Payload::Status(y)) => {
                assert(x.counters =~= y.counters);
            },
            (Payload::Log(x), Payload::Log(y)) => {
                assert(x.text =~= y.text);
            },
            _ => {},
        }
    }
}

/// What the host receives for a frame: the wire bytes end with the only zero,
/// COBS-decoding the rest gives the raw frame, and that decodes to the frame.
pub proof fn law_wire_roundtrip(f: Frame)
    requires
        spec_encode_raw(f) is Some,
    ensures
        ({
            let raw = spec_encode_raw(f)->0;
            let wire = cobs_enc(raw).push(0u8);
            &&& wire.last() == 0
            &&& !wire.drop_last().contains(0u8)
            &&& cobs_dec(wire.drop_last()) == Some(raw)
            &&& raw_decodes_to(raw, Ok(f))
        }),
{
    let raw = spec_encode_raw(f)->0;
    let wire = cobs_enc(raw).push(0u8);
    assert(wire.drop_last() =~= cobs_enc(raw));
    law_cobs_no_zero(raw);
    law_cobs_roundtrip(raw);
    law_frame_roundtrip(f);
}

/// Payload length of each frame type: 31 for HELLO, 16 plus the pack for
/// OBS, 48 for STATUS, 2 plus the text for LOG.
pub open spec fn payload_len(p: Payload) -> int {
    match p {
        Payload::Hello(_) => 31,
        Payload::Obs(o) => 16 + o.pack@.len() as int,
        Payload::Status(_) => 48,
        Payload::Log(l) => 2 + l.text@.len() as int,
    }
}

/// The layout of a raw frame: version 1, the type, the sequence number and
/// the device time little-endian, the payload, and last the CRC-32 of all
/// bytes before it, little-endian; 18 bytes plus the payload in all.
pub proof fn law_raw_layout(f: Frame)
    requires
        spec_encode_raw(f) is Some,
    ensures
        ({
            let raw = spec_encode_raw(f)->0;
            let n = raw.len() as int;
            &&& n == 18 + payload_len(f.payload)
            &&& raw[0] == VERSION
            &&& raw[1] == payload_type(f.payload)
            &&& raw.subrange(2, 6) == le32_bytes(f.seq)
            &&& raw.subrange(6, 14) == le64_bytes(f.t_dev_us)
            &&& raw.subrange(14, n - 4) == payload_bytes(f.payload)
            &&& raw.subrange(n - 4, n) == le32_bytes(crc32_iso_hdlc(raw.take(n - 4)))
        }),
{
    let raw = spec_encode_raw(f)->0;
    let body = frame_body(f);
    lemma_raw_len(f);
    lemma_counters_bytes_len(f.payload);
    let n = raw.len() as int;
    assert(raw.take(n - 4) =~= body);
    assert(raw.subrange(n - 4, n) =~= le32_bytes(crc32_iso_hdlc(body)));
    assert(raw.subrange(2, 6) =~= le32_bytes(f.seq));
    assert(raw.subrange(6, 14) =~= le64_bytes(f.t_dev_us));
    assert(raw.subrange(14, n - 4) =~= payload_bytes(f.payload));
}

} // verus!
