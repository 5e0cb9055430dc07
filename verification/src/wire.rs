//! Numbering outgoing frames, and the device log carried in them.

use vstd::prelude::*;
use vstd::utf8::{encode_scalar, encode_utf8, encode_utf8_first_scalar, length_of_first_scalar};

use crate::cobs::cobs_enc;
use crate::proto::{spec_encode_raw, Frame, FrameBuf, Log, Payload, LOG_TEXT_CAP};

verus! {

/// `r` is the wire form of `f`: its raw bytes COBS-encoded and followed by
/// a zero, or `None` when a field of `f` exceeds its cap.
pub open spec fn wire_frame(f: Frame, r: Option<FrameBuf>) -> bool {
    match spec_encode_raw(f) {
        Some(raw) => r matches Some(fb) && fb.len == cobs_enc(raw).len() + 1 && fb.bytes@.take(
            fb.len as int,
        ) == cobs_enc(raw).push(0u8),
        None => r is None,
    }
}

/// The sequence number after `seq`.
pub open spec fn next_seq_after(seq: u32) -> u32 {
    if seq == u32::MAX {
        0
    } else {
        (seq + 1) as u32
    }
}

/// Gives `payload` the next sequence number and encodes the frame for the
/// wire. The sequence number advances (wrapping) whether or not the frame
/// could be encoded, so the host sees a gap for a frame that was dropped;
/// the caller queues the frame, and counts a drop on `None` or a full queue.
pub fn send(next_seq: &mut u32, t_dev_us: u64, payload: Payload) -> (r: Option<FrameBuf>)
    ensures
        *final(next_seq) == next_seq_after(*old(next_seq)),
        wire_frame(Frame { seq: *old(next_seq), t_dev_us, payload }, r),
{
    let seq = *next_seq;
    *next_seq = seq.wrapping_add(1);
    FrameBuf::encode(&Frame { seq, t_dev_us, payload })
}

/// The UTF-8 bytes of the leading characters of `cs` that fit in `room`
/// bytes: characters are taken one by one and the first that does not fit
/// ends the text.
pub open spec fn fitted(room: int, cs: Seq<char>) -> Seq<u8>
    decreases cs.len(),
{
    if cs.len() == 0 {
        seq![]
    } else {
        let e = encode_scalar(cs[0] as u32);
        if e.len() > room {
            seq![]
        } else {
            e + fitted(room - e.len(), cs.drop_first())
        }
    }
}

proof fn lemma_fitted_len(room: int, cs: Seq<char>)
    requires
        room >= 0,
    ensures
        fitted(room, cs).len() <= room,
    decreases cs.len(),
{
    if cs.len() > 0 {
        let e = encode_scalar(cs[0] as u32);
        if e.len() <= room {
            lemma_fitted_len(room - e.len(), cs.drop_first());
        }
    }
}

proof fn lemma_encode_take_succ(cs: Seq<char>, k: int)
    requires
        0 <= k < cs.len(),
    ensures
        encode_utf8(cs.take(k + 1)) == encode_scalar(cs[0] as u32) + encode_utf8(
            cs.drop_first().take(k),
        ),
{
    let t = cs.take(k + 1);
    assert(t[0] == cs[0]);
    assert(t.drop_first() =~= cs.drop_first().take(k));
}

/// The log text stops at the last whole character that fits: what is kept
/// is the UTF-8 encoding of the first `j` characters, for the `j` after
/// which the next character (if any) would not fit.
pub proof fn law_fitted_whole_chars(room: int, cs: Seq<char>)
    requires
        room >= 0,
    ensures
        exists|j: int|
            0 <= j <= cs.len() && fitted(room, cs) == encode_utf8(#[trigger] cs.take(j)) && (j
                == cs.len() || encode_utf8(cs.take(j + 1)).len() > room),
    decreases cs.len(),
{
    if cs.len() == 0 {
        assert(cs.take(0) =~= cs);
        assert(fitted(room, cs) == encode_utf8(cs.take(0)));
    } else {
        let e = encode_scalar(cs[0] as u32);
        lemma_encode_take_succ(cs, 0);
        assert(cs.drop_first().take(0) =~= Seq::<char>::empty());
        assert(encode_utf8(cs.drop_first().take(0)) =~= Seq::<u8>::empty());
        if e.len() > room {
            assert(cs.take(0) =~= Seq::<char>::empty());
            assert(encode_utf8(cs.take(1)) =~= e);
            assert(fitted(room, cs) == encode_utf8(cs.take(0)));
        } else {
            let rest = cs.drop_first();
            law_fitted_whole_chars(room - e.len(), rest);
            let j = choose|j: int|
                0 <= j <= rest.len() && fitted(room - e.len(), rest) == encode_utf8(
                    #[trigger] rest.take(j),
                ) && (j == rest.len() || encode_utf8(rest.take(j + 1)).len() > room - e.len());
            lemma_encode_take_succ(cs, j);
            if j < rest.len() {
                lemma_encode_take_succ(cs, j + 1);
            }
            assert(fitted(room, cs) == encode_utf8(cs.take(j + 1)));
        }
    }
}

/// The text of one log record: at most `LOG_TEXT_CAP` bytes, cut before the
/// first character that does not fit.
pub struct LogText {
    buf: [u8; LOG_TEXT_CAP],
    len: usize,
}

impl View for LogText {
    type V = Seq<u8>;

    closed spec fn view(&self) -> Seq<u8> {
        self.buf@.take(self.len as int)
    }
}

impl LogText {
    #[verifier::type_invariant]
    spec fn inv(self) -> bool {
        self.len <= LOG_TEXT_CAP
    }

    pub fn new() -> (t: LogText)
        ensures
            t@ == Seq::<u8>::empty(),
    {
        LogText { buf: [0u8; LOG_TEXT_CAP], len: 0 }
    }

    /// Appends the characters of `s` while they fit; once one does not, the
    /// rest of `s` is dropped.
    pub fn write_str(&mut self, s: &str)
        ensures
            final(self)@ == old(self)@ + fitted(LOG_TEXT_CAP - old(self)@.len(), s@),
            final(self)@.len() <= LOG_TEXT_CAP,
    {
        proof {
            use_type_invariant(&*self);
        }
        let bytes = s.as_bytes();
        let ghost cs = s@;
        let ghost room0 = LOG_TEXT_CAP - self.len;
        let ghost start = self.buf@.take(self.len as int);
        let n = bytes.len();
        let mut p: usize = 0;
        let mut len = self.len;
        let mut buf = self.buf;
        let ghost mut k: int = 0;
        assert(cs.skip(0) =~= cs);
        assert(bytes@.skip(0) =~= bytes@);
        loop
            invariant
                bytes@ == encode_utf8(cs),
                n == bytes@.len(),
                0 <= k <= cs.len(),
                p <= n,
                len <= LOG_TEXT_CAP,
                bytes@.skip(p as int) == encode_utf8(cs.skip(k)),
                room0 == LOG_TEXT_CAP - start.len(),
                start.len() <= len,
                buf@.take(len as int) == start + bytes@.take(p as int),
                fitted(room0, cs) == bytes@.take(p as int) + fitted(LOG_TEXT_CAP - len, cs.skip(k)),
            ensures
                len <= LOG_TEXT_CAP,
                buf@.take(len as int) == start + fitted(room0, cs),
            decreases n - p,
        {
            if p >= n {
                assert(cs.skip(k).len() == 0) by {
                    if cs.skip(k).len() > 0 {
                        assert(encode_utf8(cs.skip(k)).len() > 0) by {
                            encode_utf8_first_scalar(cs.skip(k));
                        }
                    }
                }
                assert(bytes@.take(p as int) =~= bytes@);
                break;
            }
            let ghost rest = cs.skip(k);
            assert(rest.len() > 0);
            proof {
                encode_utf8_first_scalar(rest);
            }
            let ghost e = encode_scalar(rest[0] as u32);
            assert(encode_utf8(rest) == e + encode_utf8(rest.drop_first()));
            assert(bytes@.skip(p as int)[0] == bytes@[p as int]);
            let b0 = bytes[p];
            let w: usize = if b0 < 0x80 {
                1
            } else if b0 < 0xe0 {
                2
            } else if b0 < 0xf0 {
                3
            } else {
                4
            };
            assert(w == length_of_first_scalar(encode_utf8(rest)));
            assert(w == e.len());
            if w > LOG_TEXT_CAP - len {
                assert(fitted(LOG_TEXT_CAP - len, rest) == Seq::<u8>::empty());
                assert(fitted(room0, cs) =~= bytes@.take(p as int));
                break;
            }
            assert(bytes@.subrange(p as int, p + w) =~= e) by {
                assert forall|j: int| 0 <= j < w implies bytes@[p + j] == e[j] by {
                    assert(bytes@.skip(p as int)[j] == bytes@[p + j]);
                    assert((e + encode_utf8(rest.drop_first()))[j] == e[j]);
                }
            }
            let ghost buf0 = buf@;
            let mut j: usize = 0;
            while j < w
                invariant
                    j <= w,
                    w <= 4,
                    len + w <= LOG_TEXT_CAP,
                    p + w <= n,
                    n == bytes@.len(),
                    buf@.len() == LOG_TEXT_CAP,
                    forall|i: int| 0 <= i < len ==> buf@[i] == buf0[i],
                    forall|i: int| len <= i < len + j ==> #[trigger] buf@[i] == bytes@[p + i - len],
                decreases w - j,
            {
                buf[len + j] = bytes[p + j];
                j = j + 1;
            }
            assert(buf@.take((len + w) as int) =~= buf0.take(len as int) + bytes@.subrange(
                p as int,
                p + w,
            ));
            assert(bytes@.take((p + w) as int) =~= bytes@.take(p as int) + bytes@.subrange(
                p as int,
                p + w,
            ));
            assert(rest.drop_first() =~= cs.skip(k + 1));
            assert(bytes@.skip((p + w) as int) =~= bytes@.skip(p as int).skip(w as int));
            assert(bytes@.skip(p as int).skip(w as int) =~= encode_utf8(rest.drop_first()));
            len = len + w;
            p = p + w;
            proof {
                k = k + 1;
            }
        }
        self.buf = buf;
        self.len = len;
        proof {
            lemma_fitted_len(room0, cs);
        }
    }

    /// The text written so far.
    pub fn as_bytes(&self) -> (r: &[u8])
        ensures
            r@ == self@,
            r@.len() <= LOG_TEXT_CAP,
    {
        proof {
            use_type_invariant(self);
        }
        vstd::slice::slice_subrange(self.buf.as_slice(), 0, self.len)
    }
}

/// The log level of records that are sent: error, warn and info.
pub open spec fn log_level_enabled(level: u8) -> bool {
    1 <= level <= 3
}

/// Sends the device log to the host as LOG frames.
pub struct FrameLogger;

impl FrameLogger {
    /// Records of level error (1), warn (2) and info (3) are sent; debug
    /// and trace are not.
    pub fn enabled(&self, level: u8) -> (r: bool)
        ensures
            r == log_level_enabled(level),
    {
        1 <= level && level <= 3
    }

    /// Frames a record of `level` with `text`: `None`, with the sequence
    /// number untouched, when the level is not enabled; otherwise the LOG
    /// frame that `send` numbers and encodes.
    pub fn log(&self, next_seq: &mut u32, t_dev_us: u64, level: u8, text: &LogText) -> (r: Option<
        FrameBuf,
    >)
        ensures
            !log_level_enabled(level) ==> r is None && *final(next_seq) == *old(next_seq),
            log_level_enabled(level) ==> *final(next_seq) == next_seq_after(*old(next_seq)) && r is Some,
            log_level_enabled(level) ==> exists|l: Log|
                #![trigger l.text@]
                {
                    &&& l.level == level
                    &&& l.text@ == text@
                    &&& wire_frame(Frame { seq: *old(next_seq), t_dev_us, payload: Payload::Log(l) }, r)
                },
    {
        if !self.enabled(level) {
            return None;
        }
        let l = Log { level, text: text.as_bytes() };
        let r = send(next_seq, t_dev_us, Payload::Log(l));
        assert(wire_frame(Frame { seq: *old(next_seq), t_dev_us, payload: Payload::Log(l) }, r));
        r
    }
}

} // verus!
