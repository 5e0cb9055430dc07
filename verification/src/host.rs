//! The host side of the USB stream: cutting it into frames, and following
//! their sequence numbers.

use vstd::prelude::*;

use crate::cobs::{cobs_dec, cobs_decode, cobs_enc, law_cobs_no_zero, lemma_cobs_dec_len, lemma_cobs_enc_len};
use crate::message::{decode_message, decodes_to, Message};
use crate::pack::{parse_pack, spec_parse_pack, PackError};
use crate::wire::next_seq_after;
use crate::proto::{
    payload_type, spec_encode_raw, Frame, FrameError, Payload, HEADER_LEN, TYPE_HELLO, TYPE_OBS,
    TYPE_STATUS,
};

verus! {

/// One byte of the stream: a non-zero byte extends the current chunk; a
/// zero ends it, and a non-empty chunk is complete.
pub open spec fn feed_step(done: Seq<Seq<u8>>, chunk: Seq<u8>, b: u8) -> (Seq<Seq<u8>>, Seq<u8>) {
    if b != 0 {
        (done, chunk.push(b))
    } else if chunk.len() > 0 {
        (done.push(chunk), seq![])
    } else {
        (done, chunk)
    }
}

/// The complete chunks and the partial chunk after feeding `bytes`.
pub open spec fn feed_spec(done: Seq<Seq<u8>>, chunk: Seq<u8>, bytes: Seq<u8>) -> (
    Seq<Seq<u8>>,
    Seq<u8>,
)
    decreases bytes.len(),
{
    if bytes.len() == 0 {
        (done, chunk)
    } else {
        let (d, c) = feed_step(done, chunk, bytes[0]);
        feed_spec(d, c, bytes.drop_first())
    }
}

proof fn lemma_feed_done(done: Seq<Seq<u8>>, chunk: Seq<u8>, bytes: Seq<u8>)
    ensures
        feed_spec(done, chunk, bytes) == (done + feed_spec(seq![], chunk, bytes).0, feed_spec(
            seq![],
            chunk,
            bytes,
        ).1),
    decreases bytes.len(),
{
    if bytes.len() > 0 {
        let (d, c) = feed_step(done, chunk, bytes[0]);
        let (d0, c0) = feed_step(seq![], chunk, bytes[0]);
        lemma_feed_done(d, c, bytes.drop_first());
        lemma_feed_done(d0, c0, bytes.drop_first());
        assert(d =~= done + d0);
    } else {
        assert(done + seq![] =~= done);
    }
}

proof fn lemma_feed_append(done: Seq<Seq<u8>>, chunk: Seq<u8>, a: Seq<u8>, b: Seq<u8>)
    ensures
        feed_spec(done, chunk, a + b) == feed_spec(
            feed_spec(done, chunk, a).0,
            feed_spec(done, chunk, a).1,
            b,
        ),
    decreases a.len(),
{
    if a.len() == 0 {
        assert(a + b =~= b);
    } else {
        let (d, c) = feed_step(done, chunk, a[0]);
        assert((a + b).drop_first() =~= a.drop_first() + b);
        assert((a + b)[0] == a[0]);
        lemma_feed_append(d, c, a.drop_first(), b);
    }
}

proof fn lemma_feed_nonzero(done: Seq<Seq<u8>>, chunk: Seq<u8>, bytes: Seq<u8>)
    requires
        !bytes.contains(0u8),
    ensures
        feed_spec(done, chunk, bytes) == (done, chunk + bytes),
    decreases bytes.len(),
{
    if bytes.len() == 0 {
        assert(chunk + bytes =~= chunk);
    } else {
        assert(bytes[0] != 0) by {
            if bytes[0] == 0 {
                assert(bytes.contains(0u8));
            }
        }
        assert(!bytes.drop_first().contains(0u8)) by {
            if bytes.drop_first().contains(0u8) {
                let j = choose|j: int| 0 <= j < bytes.drop_first().len() && bytes.drop_first()[j] == 0u8;
                assert(bytes[j + 1] == 0u8);
            }
        }
        lemma_feed_nonzero(done, chunk.push(bytes[0]), bytes.drop_first());
        assert(chunk.push(bytes[0]) + bytes.drop_first() =~= chunk + bytes);
    }
}

/// The stream may arrive in any pieces: feeding `a` and then `b` gives the
/// chunks of feeding `a + b`, and leaves the same partial chunk.
pub proof fn law_feed_split(chunk: Seq<u8>, a: Seq<u8>, b: Seq<u8>)
    ensures
        ({
            let (d1, c1) = feed_spec(seq![], chunk, a);
            let (d2, c2) = feed_spec(seq![], c1, b);
            feed_spec(seq![], chunk, a + b) == (d1 + d2, c2)
        }),
{
    let (d1, c1) = feed_spec(seq![], chunk, a);
    lemma_feed_append(seq![], chunk, a, b);
    lemma_feed_done(d1, c1, b);
}

/// The wire bytes of an encodable frame, fed to a deframer between frames,
/// come out as one chunk, the COBS encoding of the raw frame, with nothing
/// left over.
pub proof fn law_deframe_wire(f: Frame)
    requires
        spec_encode_raw(f) is Some,
    ensures
        ({
            let raw = spec_encode_raw(f)->0;
            feed_spec(seq![], seq![], cobs_enc(raw).push(0u8)) == (seq![cobs_enc(raw)], Seq::<
                u8,
            >::empty())
        }),
{
    let raw = spec_encode_raw(f)->0;
    let e = cobs_enc(raw);
    law_cobs_no_zero(raw);
    lemma_cobs_enc_len(raw);
    lemma_feed_append(seq![], seq![], e, seq![0u8]);
    assert(e + seq![0u8] =~= e.push(0u8));
    lemma_feed_nonzero(seq![], seq![], e);
    assert(Seq::<u8>::empty() + e =~= e);
    let (d, c) = feed_step(seq![], e, 0u8);
    assert(seq![0u8].drop_first() =~= Seq::<u8>::empty());
    assert(feed_spec(seq![], e, seq![0u8]) == feed_spec(d, c, Seq::<u8>::empty()));
}

/// The views of the chunks.
pub open spec fn chunk_views(chunks: Seq<Vec<u8>>) -> Seq<Seq<u8>> {
    chunks.map_values(|c: Vec<u8>| c@)
}

/// Cuts the device's byte stream at zero bytes.
pub struct Deframer {
    chunk: Vec<u8>,
}

impl View for Deframer {
    type V = Seq<u8>;

    /// The chunk not yet ended by a zero.
    closed spec fn view(&self) -> Seq<u8> {
        self.chunk@
    }
}

impl Deframer {
    pub fn new() -> (d: Deframer)
        ensures
            d@ == Seq::<u8>::empty(),
    {
        Deframer { chunk: Vec::new() }
    }

    /// Feeds received bytes; returns, in order, the chunks that a zero byte
    /// completed. Empty chunks (two zeros in a row) are skipped.
    pub fn feed(&mut self, bytes: &[u8]) -> (chunks: Vec<Vec<u8>>)
        ensures
            feed_spec(seq![], old(self)@, bytes@) == (chunk_views(chunks@), final(self)@),
    {
        let mut chunks: Vec<Vec<u8>> = Vec::new();
        let n = bytes.len();
        let mut i: usize = 0;
        assert(bytes@.skip(0) =~= bytes@);
        assert(chunk_views(chunks@) =~= seq![]);
        while i < n
            invariant
                n == bytes@.len(),
                i <= n,
                feed_spec(seq![], old(self)@, bytes@) == feed_spec(
                    chunk_views(chunks@),
                    self.chunk@,
                    bytes@.skip(i as int),
                ),
            decreases n - i,
        {
            let b = bytes[i];
            let ghost before = chunk_views(chunks@);
            let ghost cur = self.chunk@;
            assert(bytes@.skip(i as int)[0] == b);
            assert(bytes@.skip(i as int).drop_first() =~= bytes@.skip(i + 1));
            if b != 0 {
                self.chunk.push(b);
            } else if self.chunk.len() > 0 {
                let mut c: Vec<u8> = Vec::new();
                core::mem::swap(&mut c, &mut self.chunk);
                chunks.push(c);
                assert(chunk_views(chunks@) =~= before.push(cur));
                assert(self.chunk@ =~= seq![]);
            }
            i = i + 1;
        }
        assert(bytes@.skip(n as int) =~= seq![]);
        chunks
    }
}

/// What a frame's sequence number says about the stream.
#[derive(Clone, Copy, Debug, PartialEq, Eq)]
pub enum SeqEvent {
    /// The first frame, or a HELLO with sequence number 0 (the device
    /// restarted): the count starts again from it.
    Resync,
    /// A frame after the previous one, with `missed` frames lost between.
    Advance { missed: u32 },
    /// A frame at or before the previous one.
    Reorder,
}

/// Follows the sequence numbers of received frames.
#[derive(Clone, Copy, Debug, PartialEq, Eq)]
pub struct SeqTracker {
    pub prev: Option<u32>,
}

/// Recording `seq` (of a HELLO when `is_hello`) moved the tracker from `t`
/// to `t2` with event `e`.
pub open spec fn observed(t: SeqTracker, seq: u32, is_hello: bool, e: SeqEvent, t2: SeqTracker) -> bool {
    if is_hello && seq == 0 {
        e == SeqEvent::Resync && t2.prev == Some(0u32)
    } else {
        match t.prev {
            None => e == SeqEvent::Resync && t2.prev == Some(seq),
            Some(prev) => {
                let d = ((seq - prev) % 0x1_0000_0000) as u32;
                if 1 <= d < 0x8000_0000 {
                    e == SeqEvent::Advance { missed: (d - 1) as u32 } && t2.prev == Some(seq)
                } else {
                    e == SeqEvent::Reorder && t2 == t
                }
            },
        }
    }
}

impl SeqTracker {
    pub fn new() -> (t: SeqTracker)
        ensures
            t.prev is None,
    {
        SeqTracker { prev: None }
    }

    /// Records the sequence number `seq` of a frame (`is_hello` for a HELLO).
    /// A frame ahead by `d` with 1 ≤ d < 2³¹ (modulo 2³²) advances the
    /// count, with `d - 1` frames missed; any other frame is out of order and
    /// leaves the count where it was.
    pub fn observe(&mut self, seq: u32, is_hello: bool) -> (e: SeqEvent)
        ensures
            observed(*old(self), seq, is_hello, e, *final(self)),
    {
        if is_hello && seq == 0 {
            self.prev = Some(0);
            return SeqEvent::Resync;
        }
        match self.prev {
            None => {
                self.prev = Some(seq);
                SeqEvent::Resync
            },
            Some(prev) => {
                let d = seq.wrapping_sub(prev);
                if 1 <= d && d < 0x8000_0000 {
                    self.prev = Some(seq);
                    SeqEvent::Advance { missed: d - 1 }
                } else {
                    SeqEvent::Reorder
                }
            },
        }
    }
}

/// The name of a log level.
pub fn level_name(level: u8) -> (s: &'static str)
    ensures
        s@ == (if level == 1 {
            "error"@
        } else if level == 2 {
            "warn"@
        } else if level == 3 {
            "info"@
        } else if level == 4 {
            "debug"@
        } else if level == 5 {
            "trace"@
        } else {
            "unknown"@
        }),
{
    match level {
        1 => "error",
        2 => "warn",
        3 => "info",
        4 => "debug",
        5 => "trace",
        _ => "unknown",
    }
}

/// The name of the radio an observation came from.
pub fn source_name(source: u8) -> (s: &'static str)
    ensures
        s@ == (if source == 1 {
            "wifi_beacon"@
        } else {
            "unknown"@
        }),
{
    if source == 1 {
        "wifi_beacon"
    } else {
        "unknown"
    }
}

/// What a chunk of the stream between two zero bytes holds.
#[derive(Clone, Copy, Debug, PartialEq, Eq)]
pub enum Chunk {
    /// Not COBS: text the device printed.
    Text,
    /// COBS, but too short for a header and a CRC.
    Short,
    /// A raw frame of this many bytes, decoded to the start of the buffer.
    Raw(usize),
}

/// Undoes the COBS encoding of `chunk` into `raw`, which is at least as
/// long as `chunk` (decoding never lengthens).
pub fn unstuff(chunk: &[u8], raw: &mut [u8]) -> (k: Chunk)
    requires
        chunk@.len() <= old(raw)@.len(),
    ensures
        final(raw)@.len() == old(raw)@.len(),
        match cobs_dec(chunk@) {
            None => k == Chunk::Text,
            Some(d) => if d.len() < HEADER_LEN + 4 {
                k == Chunk::Short
            } else {
                k == Chunk::Raw(d.len() as usize) && final(raw)@.take(d.len() as int) == d
            },
        },
{
    proof {
        lemma_cobs_dec_len(chunk@);
    }
    let ghost len0 = raw@.len();
    match cobs_decode(chunk, raw) {
        None => {
            assert(cobs_dec(chunk@) is None) by {
                if let Some(d) = cobs_dec(chunk@) {
                    assert(d.len() <= chunk@.len());
                    assert(d.len() <= len0);
                }
            }
            Chunk::Text
        },
        Some(n) => {
            assert(cobs_dec(chunk@) == Some(raw@.take(n as int)));
            assert(raw@.take(n as int).len() == n);
            if n < HEADER_LEN + 4 {
                Chunk::Short
            } else {
                Chunk::Raw(n)
            }
        },
    }
}

/// What one chunk did to the counts of the decoder.
#[derive(Clone, Copy, Debug, PartialEq, Eq)]
pub enum Event {
    /// Device text.
    Text,
    /// Too short, or a payload length that disagrees with its type.
    BadFrame,
    BadCrc,
    /// An unknown version or frame type.
    Unknown,
    /// A frame of type `ty` and what its sequence number said.
    Frame { ty: u8, seq: SeqEvent },
}

/// `e` is the event of the decoded (or refused) raw frame `r`, and the
/// tracker went from `t` to `t2`: a refused frame gives its error and leaves
/// the tracker; a frame gives its type and what its sequence number said.
pub open spec fn raw_event(r: Result<Frame, FrameError>, t: SeqTracker, e: Event, t2: SeqTracker) -> bool {
    match r {
        Err(FrameError::BadCrc) => e == Event::BadCrc && t2 == t,
        Err(FrameError::BadLength) => e == Event::BadFrame && t2 == t,
        Err(FrameError::Unknown) => e == Event::Unknown && t2 == t,
        Ok(f) => e matches Event::Frame { ty, seq } && ty == payload_type(f.payload) && observed(
            t,
            f.seq,
            f.payload is Hello,
            seq,
            t2,
        ),
    }
}

/// The event of a decoded (or refused) raw frame; a frame's sequence number
/// goes through `tracker`.
pub fn frame_event(r: &Result<Frame, FrameError>, tracker: &mut SeqTracker) -> (e: Event)
    ensures
        raw_event(*r, *old(tracker), e, *final(tracker)),
{
    match r {
        Err(FrameError::BadCrc) => Event::BadCrc,
        Err(FrameError::BadLength) => Event::BadFrame,
        Err(FrameError::Unknown) => Event::Unknown,
        Ok(f) => {
            let (ty, is_hello) = match f.payload {
                Payload::Hello(_) => (TYPE_HELLO, true),
                Payload::Obs(_) => (TYPE_OBS, false),
                Payload::Status(_) => (TYPE_STATUS, false),
                Payload::Log(_) => (crate::proto::TYPE_LOG, false),
            };
            let seq = tracker.observe(f.seq, is_hello);
            Event::Frame { ty, seq }
        },
    }
}

/// The event of one chunk of the stream: device text for a chunk that is
/// not COBS, a bad frame for one too short to be a frame, and otherwise the
/// event of its decoded raw frame `r`.
pub fn chunk_event(k: Chunk, r: Option<&Result<Frame, FrameError>>, tracker: &mut SeqTracker) -> (e: Event)
    requires
        k is Raw ==> r is Some,
    ensures
        k == Chunk::Text ==> e == Event::Text && *final(tracker) == *old(tracker),
        k == Chunk::Short ==> e == Event::BadFrame && *final(tracker) == *old(tracker),
        k is Raw ==> (r matches Some(res) && raw_event(*res, *old(tracker), e, *final(tracker))),
{
    match k {
        Chunk::Text => Event::Text,
        Chunk::Short => Event::BadFrame,
        Chunk::Raw(_) => match r {
            Some(res) => frame_event(res, tracker),
            None => Event::BadFrame,
        },
    }
}

/// The counts the decoder reports.
#[derive(Clone, Copy, Debug, PartialEq, Eq)]
pub struct Stats {
    pub frames: u64,
    pub hello: u64,
    pub obs: u64,
    pub status: u64,
    pub log: u64,
    pub bad_crc: u64,
    pub bad_frames: u64,
    pub text_chunks: u64,
    pub unknown: u64,
    pub seq_gaps: u64,
    pub seq_reorder: u64,
}

/// No count can overflow on the next event.
pub open spec fn has_room(s: Stats) -> bool {
    &&& s.frames < u64::MAX
    &&& s.hello < u64::MAX
    &&& s.obs < u64::MAX
    &&& s.status < u64::MAX
    &&& s.log < u64::MAX
    &&& s.bad_crc < u64::MAX
    &&& s.bad_frames < u64::MAX
    &&& s.text_chunks < u64::MAX
    &&& s.unknown < u64::MAX
    &&& s.seq_gaps <= u64::MAX - u32::MAX
    &&& s.seq_reorder < u64::MAX
}

/// The counts after event `e`: a frame counts once in all and once under
/// its type (HELLO, OBS, STATUS, any other as LOG), and its sequence event
/// adds the missed frames or one reordering.
pub open spec fn counted(s: Stats, e: Event) -> Stats {
    match e {
        Event::Text => Stats { text_chunks: (s.text_chunks + 1) as u64, ..s },
        Event::BadFrame => Stats { bad_frames: (s.bad_frames + 1) as u64, ..s },
        Event::BadCrc => Stats { bad_crc: (s.bad_crc + 1) as u64, ..s },
        Event::Unknown => Stats { unknown: (s.unknown + 1) as u64, ..s },
        Event::Frame { ty, seq } => {
            let s1 = match seq {
                SeqEvent::Advance { missed } => Stats { seq_gaps: (s.seq_gaps + missed) as u64, ..s },
                SeqEvent::Reorder => Stats { seq_reorder: (s.seq_reorder + 1) as u64, ..s },
                SeqEvent::Resync => s,
            };
            let s2 = Stats { frames: (s1.frames + 1) as u64, ..s1 };
            if ty == TYPE_HELLO {
                Stats { hello: (s2.hello + 1) as u64, ..s2 }
            } else if ty == TYPE_OBS {
                Stats { obs: (s2.obs + 1) as u64, ..s2 }
            } else if ty == TYPE_STATUS {
                Stats { status: (s2.status + 1) as u64, ..s2 }
            } else {
                Stats { log: (s2.log + 1) as u64, ..s2 }
            }
        },
    }
}

impl Stats {
    /// All counts zero.
    pub fn new() -> (s: Stats)
        ensures
            s == (Stats {
                frames: 0,
                hello: 0,
                obs: 0,
                status: 0,
                log: 0,
                bad_crc: 0,
                bad_frames: 0,
                text_chunks: 0,
                unknown: 0,
                seq_gaps: 0,
                seq_reorder: 0,
            }),
    {
        Stats {
            frames: 0,
            hello: 0,
            obs: 0,
            status: 0,
            log: 0,
            bad_crc: 0,
            bad_frames: 0,
            text_chunks: 0,
            unknown: 0,
            seq_gaps: 0,
            seq_reorder: 0,
        }
    }

    /// Whether every count can take one more event.
    pub fn has_room(&self) -> (r: bool)
        ensures
            r == has_room(*self),
    {
        self.frames < u64::MAX && self.hello < u64::MAX && self.obs < u64::MAX && self.status
            < u64::MAX && self.log < u64::MAX && self.bad_crc < u64::MAX && self.bad_frames
            < u64::MAX && self.text_chunks < u64::MAX && self.unknown < u64::MAX && self.seq_gaps
            <= u64::MAX - 0xFFFF_FFFF && self.seq_reorder < u64::MAX
    }

    /// Counts one event.
    pub fn record(&mut self, e: Event)
        requires
            has_room(*old(self)),
        ensures
            *final(self) == counted(*old(self), e),
    {
        match e {
            Event::Text => self.text_chunks = self.text_chunks + 1,
            Event::BadFrame => self.bad_frames = self.bad_frames + 1,
            Event::BadCrc => self.bad_crc = self.bad_crc + 1,
            Event::Unknown => self.unknown = self.unknown + 1,
            Event::Frame { ty, seq } => {
                match seq {
                    SeqEvent::Advance { missed } => self.seq_gaps = self.seq_gaps + missed as u64,
                    SeqEvent::Reorder => self.seq_reorder = self.seq_reorder + 1,
                    SeqEvent::Resync => {},
                }
                self.frames = self.frames + 1;
                if ty == TYPE_HELLO {
                    self.hello = self.hello + 1;
                } else if ty == TYPE_OBS {
                    self.obs = self.obs + 1;
                } else if ty == TYPE_STATUS {
                    self.status = self.status + 1;
                } else {
                    self.log = self.log + 1;
                }
            },
        }
    }
}

/// The name of a pack error, as the host reports it.
pub fn pack_error_name(e: PackError) -> (s: &'static str)
    ensures
        s@ == match e {
            PackError::TooShort => "TooShort"@,
            PackError::NotAPack => "NotAPack"@,
            PackError::BadMessageSize(_) => "BadMessageSize"@,
            PackError::TooManyMessages(_) => "TooManyMessages"@,
            PackError::Truncated => "Truncated"@,
            PackError::Empty => "Empty"@,
            PackError::InvalidContent => "InvalidContent"@,
        },
{
    match e {
        PackError::TooShort => "TooShort",
        PackError::NotAPack => "NotAPack",
        PackError::BadMessageSize(_) => "BadMessageSize",
        PackError::TooManyMessages(_) => "TooManyMessages",
        PackError::Truncated => "Truncated",
        PackError::Empty => "Empty",
        PackError::InvalidContent => "InvalidContent",
    }
}

/// The device numbers frames one after the other, wrapping after
/// `u32::MAX`; the host sees the next number as one step ahead with nothing
/// missed, across the wrap too. (A HELLO numbered 0 resynchronises instead.)
pub proof fn law_next_frame_has_no_gap(t: SeqTracker, s: u32, t2: SeqTracker, e: SeqEvent)
    requires
        t.prev == Some(s),
        observed(t, next_seq_after(s), false, e, t2),
    ensures
        e == (SeqEvent::Advance { missed: 0 }),
        t2.prev == Some(next_seq_after(s)),
{
}

/// Every frame is counted under exactly one type, so the counts by type
/// always add up to the frames.
pub proof fn law_counts_add_up(s: Stats, e: Event)
    requires
        s.frames == s.hello + s.obs + s.status + s.log,
        has_room(s),
    ensures
        counted(s, e).frames == counted(s, e).hello + counted(s, e).obs + counted(s, e).status
            + counted(s, e).log,
{
}

/// The messages of an OBS frame's pack, decoded in order. A pack that parses
/// has only types that decode, so every message comes out.
pub fn pack_contents(pack: &[u8]) -> (r: Result<Vec<Message>, PackError>)
    ensures
        match r {
            Err(e) => spec_parse_pack(pack@) == Err::<Seq<Seq<u8>>, PackError>(e),
            Ok(v) => spec_parse_pack(pack@) matches Ok(ms) && v@.len() == ms.len() && forall|i: int|
                0 <= i < ms.len() ==> decodes_to(ms[i], Ok(#[trigger] v@[i])),
        },
{
    let mut it = match parse_pack(pack) {
        Ok(it) => it,
        Err(e) => return Err(e),
    };
    let ghost ms = it.remaining();
    let mut v: Vec<Message> = Vec::new();
    loop
        invariant
            spec_parse_pack(pack@) == Ok::<Seq<Seq<u8>>, PackError>(ms),
            v@.len() + it.remaining().len() == ms.len(),
            it.remaining() == ms.skip(v@.len() as int),
            forall|i: int| 0 <= i < v@.len() ==> decodes_to(ms[i], Ok(#[trigger] v@[i])),
        decreases it.remaining().len(),
    {
        let ghost k = v@.len();
        match it.next() {
            Some(m) => {
                assert(m@ == ms[k as int]);
                match decode_message(&m) {
                    Ok(d) => v.push(d),
                    Err(_) => {
                        assert(false) by {
                            assert(ms[k as int][0] / 16 < 6);
                        }
                    },
                }
                assert(ms.skip(k as int).drop_first() =~= ms.skip(k as int + 1));
            },
            None => {
                assert(v@.len() == ms.len());
                return Ok(v);
            },
        }
    }
}

/// The name of a payload's type in the host's output.
pub fn payload_name(p: &Payload) -> (s: &'static str)
    ensures
        s@ == match *p {
            Payload::Hello(_) => "hello"@,
            Payload::Obs(_) => "obs"@,
            Payload::Status(_) => "status"@,
            Payload::Log(_) => "log"@,
        },
{
    match p {
        Payload::Hello(_) => "hello",
        Payload::Obs(_) => "obs",
        Payload::Status(_) => "status",
        Payload::Log(_) => "log",
    }
}

/// What a decoded frame does to the host's state: it counts once in all and
/// once under its type; a HELLO numbered 0 resynchronises; the first frame
/// sets the count; otherwise a frame `g` ahead (1 ≤ g < 2³¹, modulo 2³²)
/// adds `g - 1` missed frames and moves the count, and any other frame adds
/// one reordering and leaves the count. No error count changes.
pub proof fn law_frame_accounting(s: Stats, t: SeqTracker, f: Frame, e: SeqEvent, t2: SeqTracker)
    requires
        has_room(s),
        observed(t, f.seq, f.payload is Hello, e, t2),
    ensures
        ({
            let c = counted(s, Event::Frame { ty: payload_type(f.payload), seq: e });
            &&& c.frames == s.frames + 1
            &&& c.hello == s.hello + if f.payload is Hello {
                1int
            } else {
                0
            }
            &&& c.obs == s.obs + if f.payload is Obs {
                1int
            } else {
                0
            }
            &&& c.status == s.status + if f.payload is Status {
                1int
            } else {
                0
            }
            &&& c.log == s.log + if f.payload is Log {
                1int
            } else {
                0
            }
            &&& c.bad_crc == s.bad_crc && c.bad_frames == s.bad_frames
            &&& c.text_chunks == s.text_chunks && c.unknown == s.unknown
            &&& (f.payload is Hello && f.seq == 0) ==> t2.prev == Some(0u32) && c.seq_gaps
                == s.seq_gaps && c.seq_reorder == s.seq_reorder
            &&& (!(f.payload is Hello && f.seq == 0) && t.prev is None) ==> t2.prev == Some(f.seq)
                && c.seq_gaps == s.seq_gaps && c.seq_reorder == s.seq_reorder
            &&& (!(f.payload is Hello && f.seq == 0) && t.prev is Some) ==> ({
                let g = (f.seq - t.prev->0) % 0x1_0000_0000;
                if 1 <= g < 0x8000_0000 {
                    t2.prev == Some(f.seq) && c.seq_gaps == s.seq_gaps + g - 1 && c.seq_reorder
                        == s.seq_reorder
                } else {
                    t2 == t && c.seq_gaps == s.seq_gaps && c.seq_reorder == s.seq_reorder + 1
                }
            })
        }),
{
}

/// A chunk that is not a frame (device text, too short, a bad length, a bad
/// CRC or an unknown type) adds one to exactly one error count and leaves
/// the frame counts alone.
pub proof fn law_refused_chunk_accounting(s: Stats, e: Event)
    requires
        has_room(s),
        !(e is Frame),
    ensures
        ({
            let c = counted(s, e);
            &&& c.frames == s.frames && c.hello == s.hello && c.obs == s.obs
            &&& c.status == s.status && c.log == s.log
            &&& c.seq_gaps == s.seq_gaps && c.seq_reorder == s.seq_reorder
            &&& c.text_chunks + c.bad_frames + c.bad_crc + c.unknown == s.text_chunks
                + s.bad_frames + s.bad_crc + s.unknown + 1
            &&& c.text_chunks >= s.text_chunks && c.bad_frames >= s.bad_frames
            &&& c.bad_crc >= s.bad_crc && c.unknown >= s.unknown
        }),
{
}

} // verus!
