//! The text line a frame is shown as on the device's debug console, when the
//! frames are printed instead of sent.

use vstd::prelude::*;
use vstd::string::StringSliceAdditionalSpecFns;
use vstd::utf8::valid_utf8;

use crate::lines::{dec, signed_dec};
use crate::cobs::{cobs_dec, cobs_decode};
use crate::proto::{decode_raw, law_raw_decode_unique, raw_decodes_to, Frame, Payload, MAX_RAW};
use crate::ui::{mac, mac_text};
use crate::units::str_from_utf8;

verus! {

/// `b` without its trailing zero bytes.
pub open spec fn trim_nul(b: Seq<u8>) -> Seq<u8>
    decreases b.len(),
{
    if b.len() > 0 && b.last() == 0 {
        trim_nul(b.drop_last())
    } else {
        b
    }
}

/// A text field: its bytes when they are UTF-8, else `?`.
pub open spec fn utf8_or_mark(b: Seq<u8>) -> Seq<u8> {
    if valid_utf8(b) {
        b
    } else {
        "?".spec_bytes()
    }
}

/// The first `n` counters, each in decimal, separated by `, `.
pub open spec fn counter_list(c: Seq<u32>, n: nat) -> Seq<u8>
    decreases n,
{
    if n == 0 {
        seq![]
    } else if n == 1 {
        dec(c[0] as nat)
    } else {
        counter_list(c, (n - 1) as nat) + ", ".spec_bytes() + dec(c[n - 1] as nat)
    }
}

/// The console line of frame `f`.
pub open spec fn console_text(f: Frame) -> Seq<u8> {
    match f.payload {
        Payload::Hello(h) => "HELLO seq=".spec_bytes() + dec(f.seq as nat) + " fw=".spec_bytes()
            + if valid_utf8(h.fw_version@) {
            trim_nul(h.fw_version@)
        } else {
            "?".spec_bytes()
        } + " ch=".spec_bytes() + dec(h.boot_channel as nat),
        Payload::Obs(o) => "OBS seq=".spec_bytes() + dec(f.seq as nat) + " ch=".spec_bytes() + dec(
            o.channel as nat,
        ) + " rssi=".spec_bytes() + signed_dec(o.rssi_dbm as int) + " mac=".spec_bytes()
            + mac_text(o.src_mac@) + " ctr=".spec_bytes() + dec(o.msg_counter as nat)
            + " pack=".spec_bytes() + dec(o.pack@.len()) + "B".spec_bytes(),
        Payload::Status(s) => "STATUS seq=".spec_bytes() + dec(f.seq as nat) + " up=".spec_bytes()
            + dec(s.uptime_s as nat) + "s ch=".spec_bytes() + dec(s.channel as nat)
            + " mode=".spec_bytes() + dec(s.mode as nat) + " trk=".spec_bytes() + dec(
            s.tracks_active as nat,
        ) + " heap=".spec_bytes() + dec(s.heap_free as nat) + " counters=[".spec_bytes()
            + counter_list(s.counters@, 9) + "]".spec_bytes(),
        Payload::Log(l) => "LOG seq=".spec_bytes() + dec(f.seq as nat) + " level=".spec_bytes()
            + dec(l.level as nat) + " ".spec_bytes() + utf8_or_mark(l.text@),
    }
}

fn push_bytes(v: &mut Vec<u8>, b: &[u8])
    ensures
        final(v)@ == old(v)@ + b@,
{
    let n = b.len();
    let mut i: usize = 0;
    while i < n
        invariant
            n == b@.len(),
            i <= n,
            v@ == old(v)@ + b@.take(i as int),
        decreases n - i,
    {
        v.push(b[i]);
        assert(b@.take(i + 1) =~= b@.take(i as int).push(b@[i as int]));
        i = i + 1;
    }
    assert(b@.take(n as int) =~= b@);
}

fn push_str(v: &mut Vec<u8>, s: &str)
    ensures
        final(v)@ == old(v)@ + s.spec_bytes(),
{
    push_bytes(v, s.as_bytes());
}

fn push_dec(v: &mut Vec<u8>, n: u64)
    ensures
        final(v)@ == old(v)@ + dec(n as nat),
    decreases n,
{
    if n >= 10 {
        push_dec(v, n / 10);
    }
    v.push(0x30 + (n % 10) as u8);
    if n >= 10 {
        assert(dec((n / 10) as nat).push((0x30 + n % 10) as u8) == dec(n as nat));
        assert(old(v)@ + dec((n / 10) as nat) + seq![(0x30 + n % 10) as u8] =~= old(v)@ + dec(
            n as nat,
        ));
    } else {
        assert(seq![(0x30 + n % 10) as u8] =~= dec(n as nat));
    }
}

fn push_signed(v: &mut Vec<u8>, x: i64)
    ensures
        final(v)@ == old(v)@ + signed_dec(x as int),
{
    if x < 0 {
        v.push(0x2d);
        let a: u64 = if x == i64::MIN {
            0x8000_0000_0000_0000
        } else {
            (-x) as u64
        };
        push_dec(v, a);
        assert(old(v)@.push(0x2du8) + dec(a as nat) =~= old(v)@ + signed_dec(x as int));
    } else {
        push_dec(v, x as u64);
    }
}

/// The console line of frame `f`: its type, sequence number and the fields
/// a person reading the console needs. Text that is not UTF-8 shows as `?`.
pub fn console_line(f: &Frame) -> (line: Vec<u8>)
    ensures
        line@ == console_text(*f),
{
    let mut v: Vec<u8> = Vec::new();
    match f.payload {
        Payload::Hello(h) => {
            push_str(&mut v, "HELLO seq=");
            push_dec(&mut v, f.seq as u64);
            push_str(&mut v, " fw=");
            match str_from_utf8(h.fw_version.as_slice()) {
                Some(_) => {
                    let mut n: usize = 16;
                    assert(h.fw_version@.take(16) =~= h.fw_version@);
                    while n > 0 && h.fw_version[n - 1] == 0
                        invariant
                            n <= 16,
                            trim_nul(h.fw_version@) == trim_nul(h.fw_version@.take(n as int)),
                        decreases n,
                    {
                        assert(h.fw_version@.take(n as int).drop_last() =~= h.fw_version@.take(
                            n - 1,
                        ));
                        n = n - 1;
                    }
                    assert(trim_nul(h.fw_version@.take(n as int)) == h.fw_version@.take(n as int));
                    let t = vstd::slice::slice_subrange(h.fw_version.as_slice(), 0, n);
                    push_bytes(&mut v, t);
                },
                None => push_str(&mut v, "?"),
            }
            push_str(&mut v, " ch=");
            push_dec(&mut v, h.boot_channel as u64);
        },
        Payload::Obs(o) => {
            push_str(&mut v, "OBS seq=");
            push_dec(&mut v, f.seq as u64);
            push_str(&mut v, " ch=");
            push_dec(&mut v, o.channel as u64);
            push_str(&mut v, " rssi=");
            push_signed(&mut v, o.rssi_dbm as i64);
            push_str(&mut v, " mac=");
            let m = mac(&o.src_mac);
            push_bytes(&mut v, m.as_slice());
            push_str(&mut v, " ctr=");
            push_dec(&mut v, o.msg_counter as u64);
            push_str(&mut v, " pack=");
            push_dec(&mut v, o.pack.len() as u64);
            push_str(&mut v, "B");
        },
        Payload::Status(s) => {
            push_str(&mut v, "STATUS seq=");
            push_dec(&mut v, f.seq as u64);
            push_str(&mut v, " up=");
            push_dec(&mut v, s.uptime_s as u64);
            push_str(&mut v, "s ch=");
            push_dec(&mut v, s.channel as u64);
            push_str(&mut v, " mode=");
            push_dec(&mut v, s.mode as u64);
            push_str(&mut v, " trk=");
            push_dec(&mut v, s.tracks_active as u64);
            push_str(&mut v, " heap=");
            push_dec(&mut v, s.heap_free as u64);
            push_str(&mut v, " counters=[");
            let ghost before = v@;
            let mut k: usize = 0;
            while k < 9
                invariant
                    k <= 9,
                    v@ == before + counter_list(s.counters@, k as nat),
                decreases 9 - k,
            {
                if k > 0 {
                    push_str(&mut v, ", ");
                }
                push_dec(&mut v, s.counters[k] as u64);
                k = k + 1;
            }
            push_str(&mut v, "]");
        },
        Payload::Log(l) => {
            push_str(&mut v, "LOG seq=");
            push_dec(&mut v, f.seq as u64);
            push_str(&mut v, " level=");
            push_dec(&mut v, l.level as u64);
            push_str(&mut v, " ");
            match str_from_utf8(l.text) {
                Some(_) => push_bytes(&mut v, l.text),
                None => push_str(&mut v, "?"),
            }
        },
    }
    assert(v@ =~= console_text(*f));
    v
}

/// The console line of a frame as it would go on the wire (COBS and the
/// final zero): `None` when the bytes before the last one are not COBS, do
/// not fit a raw frame, or are not a frame that decodes.
pub fn console_line_of(bytes: &[u8]) -> (r: Option<Vec<u8>>)
    requires
        bytes@.len() >= 1,
    ensures
        r is Some <==> (cobs_dec(bytes@.drop_last()) matches Some(d) && d.len() <= MAX_RAW && exists|
            f: Frame,
        | raw_decodes_to(d, Ok(f))),
        r matches Some(line) ==> (cobs_dec(bytes@.drop_last()) matches Some(d) && exists|f: Frame|
            raw_decodes_to(d, Ok(f)) && line@ == console_text(f)),
{
    let n = bytes.len();
    let body = vstd::slice::slice_subrange(bytes, 0, n - 1);
    assert(body@ =~= bytes@.drop_last());
    let mut raw = [0u8; MAX_RAW];
    let m = match cobs_decode(body, &mut raw) {
        Some(m) => m,
        None => return None,
    };
    let d = vstd::slice::slice_subrange(raw.as_slice(), 0, m);
    assert(d@ == raw@.take(m as int));
    match decode_raw(d) {
        Ok(f) => {
            let line = console_line(&f);
            assert(raw_decodes_to(d@, Ok(f)));
            Some(line)
        },
        Err(e) => {
            assert forall|f: Frame| !raw_decodes_to(d@, Ok(f)) by {
                if raw_decodes_to(d@, Ok(f)) {
                    law_raw_decode_unique(d@, Ok(f), Err(e));
                }
            }
            None
        },
    }
}

} // verus!
