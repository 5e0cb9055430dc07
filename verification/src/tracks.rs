//! The table of tracked aircraft: one slot per source MAC, filled from the
//! messages of each received pack.

use vstd::prelude::*;

use crate::message::{
    basic_id_from, decode_message, location_from, operator_id_from, self_id_from, system_from,
    BasicId, Location, Message, OperatorId, SelfId, System,
};
use crate::pack::PackIter;
use crate::radio::RawObs;
use crate::MAX_PACK_MESSAGES;

verus! {

pub const MAX_TRACKS: usize = 16;

pub const HIDE_AFTER_US: u64 = 10_000_000;

#[derive(Clone, Copy, Debug, PartialEq, Eq)]
pub struct Track {
    pub mac: [u8; 6],
    pub first_seen_us: u64,
    pub last_seen_us: u64,
    pub frames: u32,
    pub last_counter: u8,
    pub channel: u8,
    pub rssi_last: i8,
    pub rssi_avg_x16: i16,
    /// [0]: id_type 1 (serial); [1]: any other id_type.
    pub basic_id: [Option<BasicId>; 2],
    pub location: Option<Location>,
    pub location_t_us: u64,
    pub system: Option<System>,
    pub operator_id: Option<OperatorId>,
    pub self_id: Option<SelfId>,
    pub auth_msgs: u16,
}

pub struct TrackTable {
    slots: [Option<Track>; MAX_TRACKS],
}

impl View for TrackTable {
    type V = Seq<Option<Track>>;

    closed spec fn view(&self) -> Seq<Option<Track>> {
        self.slots@
    }
}

// ---------------------------------------------------------------------------
// Slot selection
// ---------------------------------------------------------------------------

/// The smallest index below `n` where `p` holds, or `n` if there is none.
pub open spec fn first_where(n: int, p: spec_fn(int) -> bool) -> int
    decreases n,
{
    if n <= 0 {
        0
    } else {
        let f = first_where(n - 1, p);
        if f < n - 1 {
            f
        } else if p(n - 1) {
            n - 1
        } else {
            n
        }
    }
}

/// The first index below `n` (at least 1) with the least `key`.
pub open spec fn argmin_first(n: int, key: spec_fn(int) -> int) -> int
    decreases n,
{
    if n <= 1 {
        0
    } else {
        let m = argmin_first(n - 1, key);
        if key(n - 1) < key(m) {
            n - 1
        } else {
            m
        }
    }
}

pub open spec fn holds_mac(s: Seq<Option<Track>>, i: int, mac: Seq<u8>) -> bool {
    s[i] matches Some(t) && t.mac@ == mac
}

/// Last time the track in slot `i` was seen; 0 for an empty slot.
pub open spec fn slot_key(s: Seq<Option<Track>>, i: int) -> int {
    match s[i] {
        Some(t) => t.last_seen_us as int,
        None => 0,
    }
}

/// The slot for `mac`: the one that holds it, else the first empty one,
/// else the first of those seen longest ago.
pub open spec fn chosen_slot(s: Seq<Option<Track>>, mac: Seq<u8>) -> int {
    let f = first_where(MAX_TRACKS as int, |i: int| holds_mac(s, i, mac));
    let e = first_where(MAX_TRACKS as int, |i: int| s[i] is None);
    if f < MAX_TRACKS {
        f
    } else if e < MAX_TRACKS {
        e
    } else {
        argmin_first(MAX_TRACKS as int, |i: int| slot_key(s, i))
    }
}

pub(crate) proof fn lemma_first_where(n: int, p: spec_fn(int) -> bool, i: int)
    requires
        0 <= i <= n,
        forall|j: int| 0 <= j < i ==> !#[trigger] p(j),
        i < n ==> p(i),
    ensures
        first_where(n, p) == i,
    decreases n,
{
    if n > 0 {
        if i < n {
            lemma_first_where(n - 1, p, if i < n - 1 {
                i
            } else {
                n - 1
            });
        } else {
            lemma_first_where(n - 1, p, n - 1);
        }
    }
}

pub(crate) proof fn lemma_first_where_props(n: int, p: spec_fn(int) -> bool)
    requires
        0 <= n,
    ensures
        0 <= first_where(n, p) <= n,
        first_where(n, p) < n ==> p(first_where(n, p)),
        forall|j: int| 0 <= j < first_where(n, p) ==> !#[trigger] p(j),
    decreases n,
{
    if n > 0 {
        lemma_first_where_props(n - 1, p);
    }
}

proof fn lemma_argmin_range(n: int, key: spec_fn(int) -> int)
    requires
        1 <= n,
    ensures
        0 <= argmin_first(n, key) < n,
    decreases n,
{
    if n > 1 {
        lemma_argmin_range(n - 1, key);
    }
}

proof fn lemma_argmin_props(n: int, key: spec_fn(int) -> int)
    requires
        1 <= n,
    ensures
        0 <= argmin_first(n, key) < n,
        forall|j: int| 0 <= j < n ==> key(argmin_first(n, key)) <= #[trigger] key(j),
        forall|j: int| 0 <= j < argmin_first(n, key) ==> key(argmin_first(n, key)) < #[trigger] key(j),
    decreases n,
{
    if n > 1 {
        lemma_argmin_props(n - 1, key);
    }
}

pub(crate) fn mac_eq(a: &[u8; 6], b: &[u8; 6]) -> (r: bool)
    ensures
        r == (a@ == b@),
{
    let mut k: usize = 0;
    while k < 6
        invariant
            k <= 6,
            forall|j: int| 0 <= j < k ==> a@[j] == b@[j],
        decreases 6 - k,
    {
        if a[k] != b[k] {
            return false;
        }
        k = k + 1;
    }
    assert(a@ =~= b@);
    true
}

// ---------------------------------------------------------------------------
// What a pack does to a track
// ---------------------------------------------------------------------------

/// Index of the last message of `ms` for which `p` holds; -1 if none does.
pub open spec fn last_index(ms: Seq<Seq<u8>>, p: spec_fn(Seq<u8>) -> bool) -> int
    decreases ms.len(),
{
    if ms.len() == 0 {
        -1
    } else if p(ms.last()) {
        ms.len() - 1
    } else {
        last_index(ms.drop_last(), p)
    }
}

/// Number of messages of `ms` for which `p` holds.
pub open spec fn count_where(ms: Seq<Seq<u8>>, p: spec_fn(Seq<u8>) -> bool) -> nat
    decreases ms.len(),
{
    if ms.len() == 0 {
        0
    } else {
        count_where(ms.drop_last(), p) + if p(ms.last()) {
            1nat
        } else {
            0nat
        }
    }
}

/// `now` is what the last message of `ms` selected by `p` decodes to, or
/// `prev` when there is none.
pub open spec fn latest<X>(
    prev: Option<X>,
    now: Option<X>,
    ms: Seq<Seq<u8>>,
    p: spec_fn(Seq<u8>) -> bool,
    from: spec_fn(Seq<u8>, X) -> bool,
) -> bool {
    let j = last_index(ms, p);
    if j < 0 {
        now == prev
    } else {
        now matches Some(v) && from(ms[j], v)
    }
}

pub open spec fn of_type(t: u8) -> spec_fn(Seq<u8>) -> bool {
    |m: Seq<u8>| m[0] / 16 == t
}

/// A Basic ID message with a serial number (id_type 1).
pub open spec fn serial_id() -> spec_fn(Seq<u8>) -> bool {
    |m: Seq<u8>| m[0] / 16 == 0 && m[1] / 16 == 1
}

/// A Basic ID message of any other id_type.
pub open spec fn other_id() -> spec_fn(Seq<u8>) -> bool {
    |m: Seq<u8>| m[0] / 16 == 0 && m[1] / 16 != 1
}

/// `t` is `t1` after the messages `ms` received at `t_dev_us`: each message
/// type keeps its latest value, and Auth messages are counted (saturating).
pub open spec fn after_messages(t1: Track, t: Track, ms: Seq<Seq<u8>>, t_dev_us: u64) -> bool {
    &&& t.mac == t1.mac
    &&& t.first_seen_us == t1.first_seen_us
    &&& t.last_seen_us == t1.last_seen_us
    &&& t.frames == t1.frames
    &&& t.last_counter == t1.last_counter
    &&& t.channel == t1.channel
    &&& t.rssi_last == t1.rssi_last
    &&& t.rssi_avg_x16 == t1.rssi_avg_x16
    &&& latest(
        t1.basic_id@[0],
        t.basic_id@[0],
        ms,
        serial_id(),
        |m: Seq<u8>, v: BasicId| basic_id_from(m, v),
    )
    &&& latest(
        t1.basic_id@[1],
        t.basic_id@[1],
        ms,
        other_id(),
        |m: Seq<u8>, v: BasicId| basic_id_from(m, v),
    )
    &&& latest(t1.location, t.location, ms, of_type(1), |m: Seq<u8>, v: Location| location_from(m, v))
    &&& t.location_t_us == if last_index(ms, of_type(1)) >= 0 {
        t_dev_us
    } else {
        t1.location_t_us
    }
    &&& t.auth_msgs == if t1.auth_msgs + count_where(ms, of_type(2)) < 65535 {
        t1.auth_msgs + count_where(ms, of_type(2))
    } else {
        65535
    }
    &&& latest(t1.self_id, t.self_id, ms, of_type(3), |m: Seq<u8>, v: SelfId| self_id_from(m, v))
    &&& latest(t1.system, t.system, ms, of_type(4), |m: Seq<u8>, v: System| system_from(m, v))
    &&& latest(
        t1.operator_id,
        t.operator_id,
        ms,
        of_type(5),
        |m: Seq<u8>, v: OperatorId| operator_id_from(m, v),
    )
}

/// Division by 8 rounding toward zero, as Rust's `/` on integers.
pub open spec fn div8(x: int) -> int {
    if x >= 0 {
        x / 8
    } else {
        -((-x) / 8)
    }
}

/// The running RSSI average (in 1/16 dBm) moved an eighth of the way to
/// `rssi`.
pub open spec fn rssi_step(avg: i16, rssi: i8) -> int {
    avg + div8(rssi * 16 - avg)
}

/// A track for a MAC seen for the first time.
pub open spec fn fresh_track(obs: RawObs) -> Track {
    Track {
        mac: obs.src_mac,
        first_seen_us: obs.t_dev_us,
        last_seen_us: 0,
        frames: 0,
        last_counter: 0,
        channel: 0,
        rssi_last: 0,
        rssi_avg_x16: (obs.rssi * 16) as i16,
        basic_id: [None, None],
        location: None,
        location_t_us: 0,
        system: None,
        operator_id: None,
        self_id: None,
        auth_msgs: 0,
    }
}

/// The track that the observation updates: the slot's own when it holds the
/// same MAC, else a fresh one.
pub open spec fn base_track(prev: Option<Track>, obs: RawObs) -> Track {
    match prev {
        Some(t) => if t.mac@ == obs.src_mac@ {
            t
        } else {
            fresh_track(obs)
        },
        None => fresh_track(obs),
    }
}

/// `t` is `t0` seen once more in `obs`, before its messages are read.
pub open spec fn seen_again(t0: Track, t: Track, obs: RawObs) -> bool {
    &&& t.mac == t0.mac
    &&& t.first_seen_us == t0.first_seen_us
    &&& t.last_seen_us == obs.t_dev_us
    &&& t.last_counter == obs.msg_counter
    &&& t.channel == obs.channel
    &&& t.rssi_last == obs.rssi
    &&& t.frames == if t0.frames < u32::MAX {
        (t0.frames + 1) as u32
    } else {
        t0.frames
    }
    &&& t.rssi_avg_x16 == rssi_step(t0.rssi_avg_x16, obs.rssi)
    &&& t.basic_id == t0.basic_id
    &&& t.location == t0.location
    &&& t.location_t_us == t0.location_t_us
    &&& t.system == t0.system
    &&& t.operator_id == t0.operator_id
    &&& t.self_id == t0.self_id
    &&& t.auth_msgs == t0.auth_msgs
}

/// The track seen in `obs` carrying the messages `ms`, from what the slot
/// held before.
pub open spec fn updated_track(prev: Option<Track>, obs: RawObs, ms: Seq<Seq<u8>>, t: Track) -> bool {
    exists|t1: Track|
        seen_again(base_track(prev, obs), t1, obs) && #[trigger] after_messages(
            t1,
            t,
            ms,
            obs.t_dev_us,
        )
}

/// No two slots hold the same MAC.
pub open spec fn macs_unique(s: Seq<Option<Track>>) -> bool {
    forall|i: int, j: int|
        0 <= i < s.len() && 0 <= j < s.len() && i != j && s[i] is Some && s[j] is Some ==> #[trigger] s[i]->0.mac@
            != #[trigger] s[j]->0.mac@
}

/// Number of occupied slots among the first `n` that were seen within
/// `HIDE_AFTER_US` of `now`.
pub open spec fn visible_among(s: Seq<Option<Track>>, n: int, now: u64) -> nat
    decreases n,
{
    if n <= 0 {
        0
    } else {
        visible_among(s, n - 1, now) + match s[n - 1] {
            Some(t) => if now - t.last_seen_us <= HIDE_AFTER_US {
                1nat
            } else {
                0nat
            },
            None => 0nat,
        }
    }
}

proof fn lemma_push(ms: Seq<Seq<u8>>, m: Seq<u8>, p: spec_fn(Seq<u8>) -> bool)
    ensures
        last_index(ms.push(m), p) == if p(m) {
            ms.len() as int
        } else {
            last_index(ms, p)
        },
        count_where(ms.push(m), p) == count_where(ms, p) + if p(m) {
            1nat
        } else {
            0nat
        },
        -1 <= last_index(ms, p) < ms.len(),
        last_index(ms, p) >= 0 ==> ms.push(m)[last_index(ms, p)] == ms[last_index(ms, p)],
{
    assert(ms.push(m).drop_last() =~= ms);
    lemma_last_index_range(ms, p);
}

proof fn lemma_last_index_range(ms: Seq<Seq<u8>>, p: spec_fn(Seq<u8>) -> bool)
    ensures
        -1 <= last_index(ms, p) < ms.len(),
    decreases ms.len(),
{
    if ms.len() > 0 {
        lemma_last_index_range(ms.drop_last(), p);
    }
}

impl TrackTable {
    /// No MAC sits in two slots.
    #[verifier::type_invariant]
    spec fn inv(self) -> bool {
        macs_unique(self.slots@)
    }

    /// A table always has `MAX_TRACKS` slots.
    pub proof fn lemma_slot_count(&self)
        ensures
            self@.len() == MAX_TRACKS,
    {
    }

    /// An empty table.
    pub fn new() -> (t: TrackTable)
        ensures
            t@.len() == MAX_TRACKS,
            forall|i: int| 0 <= i < MAX_TRACKS ==> t@[i] is None,
            macs_unique(t@),
    {
        TrackTable { slots: [None; MAX_TRACKS] }
    }

    /// Records `obs` and the messages of its pack (at most nine) in the slot
    /// of its MAC; no MAC ever sits in two slots.
    pub fn update(&mut self, obs: &RawObs, msgs: PackIter<'_>)
        ensures
            final(self)@.len() == MAX_TRACKS,
            macs_unique(old(self)@),
            macs_unique(final(self)@),
            msgs.remaining().len() <= MAX_PACK_MESSAGES,
            ({
                let i = chosen_slot(old(self)@, obs.src_mac@);
                &&& 0 <= i < MAX_TRACKS
                &&& forall|j: int| 0 <= j < MAX_TRACKS && j != i ==> final(self)@[j] == old(self)@[j]
                &&& final(self)@[i] matches Some(t) && updated_track(
                    old(self)@[i],
                    *obs,
                    msgs.remaining(),
                    t,
                )
            }),
    {
        proof {
            use_type_invariant(&*self);
        }
        // A pack holds at most nine messages.
        let pending = msgs.len();
        assert(pending <= MAX_PACK_MESSAGES);
        let ghost s = self.slots@;
        let ghost mac = obs.src_mac@;
        assert(s.len() == MAX_TRACKS);
        // The slot that holds this MAC, else the first empty one, else the
        // oldest.
        let mut f: usize = 0;
        loop
            invariant
                f <= MAX_TRACKS,
                self.slots@ == s,
                s.len() == MAX_TRACKS,
                mac == obs.src_mac@,
                forall|j: int| 0 <= j < f ==> !holds_mac(s, j, mac),
            ensures
                f <= MAX_TRACKS,
                forall|j: int| 0 <= j < f ==> !holds_mac(s, j, mac),
                f < MAX_TRACKS ==> holds_mac(s, f as int, mac),
            decreases MAX_TRACKS - f,
        {
            if f >= MAX_TRACKS {
                break;
            }
            let found = match self.slots[f] {
                Some(t) => mac_eq(&t.mac, &obs.src_mac),
                None => false,
            };
            if found {
                break;
            }
            f = f + 1;
        }
        proof {
            lemma_first_where(MAX_TRACKS as int, |i: int| holds_mac(s, i, mac), f as int);
        }
        let i = if f < MAX_TRACKS {
            f
        } else {
            let mut e: usize = 0;
            while e < MAX_TRACKS && self.slots[e].is_some()
                invariant
                    e <= MAX_TRACKS,
                    self.slots@ == s,
                    s.len() == MAX_TRACKS,
                    forall|j: int| 0 <= j < e ==> !(s[j] is None),
                decreases MAX_TRACKS - e,
            {
                e = e + 1;
            }
            proof {
                lemma_first_where(MAX_TRACKS as int, |i: int| s[i] is None, e as int);
            }
            if e < MAX_TRACKS {
                e
            } else {
                let ghost key = |i: int| slot_key(s, i);
                let mut best: usize = 0;
                let mut best_key: u64 = match self.slots[0] {
                    Some(t) => t.last_seen_us,
                    None => 0,
                };
                let mut k: usize = 1;
                while k < MAX_TRACKS
                    invariant
                        1 <= k <= MAX_TRACKS,
                        self.slots@ == s,
                        s.len() == MAX_TRACKS,
                        key == |i: int| slot_key(s, i),
                        best == argmin_first(k as int, key),
                        best < k,
                        best_key == slot_key(s, best as int),
                    decreases MAX_TRACKS - k,
                {
                    let kk: u64 = match self.slots[k] {
                        Some(t) => t.last_seen_us,
                        None => 0,
                    };
                    if kk < best_key {
                        best = k;
                        best_key = kk;
                    }
                    k = k + 1;
                }
                best
            }
        };
        assert(i == chosen_slot(s, mac));
        let mut t = match self.slots[i] {
            Some(t) => if mac_eq(&t.mac, &obs.src_mac) {
                t
            } else {
                Track {
                    mac: obs.src_mac,
                    first_seen_us: obs.t_dev_us,
                    last_seen_us: 0,
                    frames: 0,
                    last_counter: 0,
                    channel: 0,
                    rssi_last: 0,
                    rssi_avg_x16: (obs.rssi as i16) * 16,
                    basic_id: [None, None],
                    location: None,
                    location_t_us: 0,
                    system: None,
                    operator_id: None,
                    self_id: None,
                    auth_msgs: 0,
                }
            },
            None => Track {
                mac: obs.src_mac,
                first_seen_us: obs.t_dev_us,
                last_seen_us: 0,
                frames: 0,
                last_counter: 0,
                channel: 0,
                rssi_last: 0,
                rssi_avg_x16: (obs.rssi as i16) * 16,
                basic_id: [None, None],
                location: None,
                location_t_us: 0,
                system: None,
                operator_id: None,
                self_id: None,
                auth_msgs: 0,
            },
        };
        let ghost t0 = t;
        assert(t0 == base_track(s[i as int], *obs));
        t.last_seen_us = obs.t_dev_us;
        t.last_counter = obs.msg_counter;
        t.channel = obs.channel;
        t.rssi_last = obs.rssi;
        t.frames = if t.frames < u32::MAX {
            t.frames + 1
        } else {
            t.frames
        };
        let avg = t.rssi_avg_x16 as i32;
        let d = (obs.rssi as i32) * 16 - avg;
        let q = if d >= 0 {
            d / 8
        } else {
            -((-d) / 8)
        };
        t.rssi_avg_x16 = (avg + q) as i16;
        let ghost t1 = t;
        assert(seen_again(t0, t1, *obs));
        let ghost ms = msgs.remaining();
        let mut msgs = msgs;
        let total = msgs.len();
        let mut n: usize = 0;
        assert(ms.take(0) =~= Seq::<Seq<u8>>::empty());
        loop
            invariant
                n <= ms.len(),
                ms.len() == total,
                msgs.remaining() == ms.skip(n as int),
                after_messages(t1, t, ms.take(n as int), obs.t_dev_us),
            ensures
                after_messages(t1, t, ms, obs.t_dev_us),
            decreases msgs.remaining().len(),
        {
            let m = match msgs.next() {
                Some(m) => m,
                None => {
                    assert(ms.take(n as int) =~= ms);
                    break;
                },
            };
            let ghost prefix = ms.take(n as int);
            let ghost next = ms.take(n + 1);
            assert(m@ == ms[n as int]);
            assert(next =~= prefix.push(m@));
            proof {
                lemma_push(prefix, m@, serial_id());
                lemma_push(prefix, m@, other_id());
                lemma_push(prefix, m@, of_type(1));
                lemma_push(prefix, m@, of_type(2));
                lemma_push(prefix, m@, of_type(3));
                lemma_push(prefix, m@, of_type(4));
                lemma_push(prefix, m@, of_type(5));
            }
            match decode_message(&m) {
                Ok(Message::BasicId(b)) => {
                    if b.id_type == 1 {
                        t.basic_id[0] = Some(b);
                    } else {
                        t.basic_id[1] = Some(b);
                    }
                },
                Ok(Message::Location(l)) => {
                    t.location = Some(l);
                    t.location_t_us = obs.t_dev_us;
                },
                Ok(Message::Auth(_)) => {
                    t.auth_msgs = if t.auth_msgs < u16::MAX {
                        t.auth_msgs + 1
                    } else {
                        t.auth_msgs
                    };
                },
                Ok(Message::SelfId(v)) => {
                    t.self_id = Some(v);
                },
                Ok(Message::System(v)) => {
                    t.system = Some(v);
                },
                Ok(Message::OperatorId(v)) => {
                    t.operator_id = Some(v);
                },
                Err(_) => {},
            }
            assert(ms.skip(n as int).drop_first() =~= ms.skip(n + 1));
            n = n + 1;
        }
        let mut slots = self.slots;
        slots[i] = Some(t);
        proof {
            law_update_keeps_macs_unique(s, *obs, ms, t);
            assert(slots@ =~= s.update(i as int, Some(t)));
        }
        self.slots = slots;
    }

    /// Number of tracks seen within `HIDE_AFTER_US` of `now_us`.
    pub fn visible_count(&self, now_us: u64) -> (n: usize)
        ensures
            n == visible_among(self@, MAX_TRACKS as int, now_us),
            n <= MAX_TRACKS,
    {
        let mut n: usize = 0;
        let mut k: usize = 0;
        while k < MAX_TRACKS
            invariant
                k <= MAX_TRACKS,
                self.slots@.len() == MAX_TRACKS,
                n == visible_among(self.slots@, k as int, now_us),
                n <= k,
            decreases MAX_TRACKS - k,
        {
            match self.slots[k] {
                Some(t) => {
                    let age = if now_us >= t.last_seen_us {
                        now_us - t.last_seen_us
                    } else {
                        0
                    };
                    if age <= HIDE_AFTER_US {
                        n = n + 1;
                    }
                },
                None => {},
            }
            k = k + 1;
        }
        n
    }
}

/// An update puts the observed MAC in its slot, and a table that never held
/// one MAC in two slots still does not after the update.
pub proof fn law_update_keeps_macs_unique(s: Seq<Option<Track>>, obs: RawObs, ms: Seq<Seq<u8>>, t: Track)
    requires
        s.len() == MAX_TRACKS,
        macs_unique(s),
        updated_track(s[chosen_slot(s, obs.src_mac@)], obs, ms, t),
    ensures
        t.mac@ == obs.src_mac@,
        macs_unique(s.update(chosen_slot(s, obs.src_mac@), Some(t))),
{
    let mac = obs.src_mac@;
    let i = chosen_slot(s, mac);
    let t1 = choose|t1: Track|
        seen_again(base_track(s[i], obs), t1, obs) && #[trigger] after_messages(
            t1,
            t,
            ms,
            obs.t_dev_us,
        );
    assert(t.mac@ == mac);
    let p = |k: int| holds_mac(s, k, mac);
    lemma_first_where_props(MAX_TRACKS as int, p);
    lemma_first_where_props(MAX_TRACKS as int, |k: int| s[k] is None);
    lemma_argmin_range(MAX_TRACKS as int, |k: int| slot_key(s, k));
    let f = first_where(MAX_TRACKS as int, p);
    let s2 = s.update(i, Some(t));
    assert forall|a: int, b: int|
        0 <= a < s2.len() && 0 <= b < s2.len() && a != b && s2[a] is Some && s2[b] is Some implies #[trigger] s2[a]->0.mac@
            != #[trigger] s2[b]->0.mac@ by {
        if a == i || b == i {
            let other = if a == i {
                b
            } else {
                a
            };
            if f < MAX_TRACKS {
                assert(holds_mac(s, i, mac));
                assert(s[other]->0.mac@ != s[i]->0.mac@);
            } else {
                assert(!p(other));
            }
        } else {
            assert(s2[a] == s[a] && s2[b] == s[b]);
        }
    }
}

/// The slot an observation of MAC `m` goes to: the first slot holding `m`
/// (the only one, when no MAC sits in two slots); else the first empty slot;
/// else the first of the slots whose track was seen longest ago.
pub proof fn law_chosen_slot(s: Seq<Option<Track>>, m: Seq<u8>)
    requires
        s.len() == MAX_TRACKS,
    ensures
        ({
            let i = chosen_slot(s, m);
            &&& 0 <= i < MAX_TRACKS
            &&& (exists|j: int| 0 <= j < MAX_TRACKS && holds_mac(s, j, m)) ==> {
                &&& holds_mac(s, i, m)
                &&& forall|j: int| 0 <= j < i ==> !holds_mac(s, j, m)
                &&& macs_unique(s) ==> forall|j: int|
                    0 <= j < MAX_TRACKS && j != i ==> !holds_mac(s, j, m)
            }
            &&& (!(exists|j: int| 0 <= j < MAX_TRACKS && holds_mac(s, j, m)) && exists|j: int|
                0 <= j < MAX_TRACKS && s[j] is None) ==> {
                &&& s[i] is None
                &&& forall|j: int| 0 <= j < i ==> s[j] is Some
            }
            &&& (!(exists|j: int| 0 <= j < MAX_TRACKS && holds_mac(s, j, m)) && !exists|j: int|
                0 <= j < MAX_TRACKS && s[j] is None) ==> {
                &&& s[i] is Some
                &&& forall|j: int|
                    0 <= j < MAX_TRACKS ==> s[i]->0.last_seen_us <= (#[trigger] s[j])->0.last_seen_us
                &&& forall|j: int| 0 <= j < i ==> s[i]->0.last_seen_us < (#[trigger] s[j])->0.last_seen_us
            }
        }),
{
    let p = |k: int| holds_mac(s, k, m);
    let q = |k: int| s[k] is None;
    let key = |k: int| slot_key(s, k);
    lemma_first_where_props(MAX_TRACKS as int, p);
    lemma_first_where_props(MAX_TRACKS as int, q);
    lemma_argmin_props(MAX_TRACKS as int, key);
    let f = first_where(MAX_TRACKS as int, p);
    let e = first_where(MAX_TRACKS as int, q);
    let i = chosen_slot(s, m);
    if exists|j: int| 0 <= j < MAX_TRACKS && holds_mac(s, j, m) {
        let j = choose|j: int| 0 <= j < MAX_TRACKS && holds_mac(s, j, m);
        assert(p(j));
        assert(f < MAX_TRACKS);
        assert forall|k: int| 0 <= k < i implies !holds_mac(s, k, m) by {
            assert(!p(k));
        }
        if macs_unique(s) {
            assert forall|k: int| 0 <= k < MAX_TRACKS && k != i implies !holds_mac(s, k, m) by {
                if holds_mac(s, k, m) {
                    assert(s[k]->0.mac@ != s[i]->0.mac@);
                }
            }
        }
    } else {
        assert(f >= MAX_TRACKS) by {
            if f < MAX_TRACKS {
                assert(p(f));
            }
        }
        if exists|j: int| 0 <= j < MAX_TRACKS && s[j] is None {
            let j = choose|j: int| 0 <= j < MAX_TRACKS && s[j] is None;
            assert(q(j));
            assert(e < MAX_TRACKS);
            assert forall|k: int| 0 <= k < i implies s[k] is Some by {
                assert(!q(k));
            }
        } else {
            assert(e >= MAX_TRACKS) by {
                if e < MAX_TRACKS {
                    assert(q(e));
                }
            }
            assert forall|j: int|
                0 <= j < MAX_TRACKS implies s[i]->0.last_seen_us <= (#[trigger] s[j])->0.last_seen_us by {
                assert(key(i) <= key(j));
                assert(s[j] is Some);
            }
            assert forall|j: int| 0 <= j < i implies s[i]->0.last_seen_us < (#[trigger] s[j])->0.last_seen_us by {
                assert(key(i) < key(j));
                assert(s[j] is Some);
            }
        }
    }
}

proof fn lemma_count_where_len(ms: Seq<Seq<u8>>, p: spec_fn(Seq<u8>) -> bool)
    ensures
        count_where(ms, p) <= ms.len(),
    decreases ms.len(),
{
    if ms.len() > 0 {
        lemma_count_where_len(ms.drop_last(), p);
    }
}

/// A MAC no slot holds gets a new track: first and last seen now, one
/// frame, the average RSSI at this frame's RSSI, as many Auth messages as
/// its pack (of at most nine messages) carries, and of the other kinds only
/// what the pack carries.
pub proof fn law_new_track(s: Seq<Option<Track>>, obs: RawObs, ms: Seq<Seq<u8>>, t: Track)
    requires
        s.len() == MAX_TRACKS,
        ms.len() <= MAX_PACK_MESSAGES,
        forall|j: int| 0 <= j < MAX_TRACKS ==> !holds_mac(s, j, obs.src_mac@),
        updated_track(s[chosen_slot(s, obs.src_mac@)], obs, ms, t),
    ensures
        t.mac == obs.src_mac,
        t.first_seen_us == obs.t_dev_us,
        t.last_seen_us == obs.t_dev_us,
        t.frames == 1,
        t.rssi_avg_x16 == obs.rssi * 16,
        t.auth_msgs == count_where(ms, of_type(2)),
        last_index(ms, serial_id()) < 0 ==> t.basic_id@[0] is None,
        last_index(ms, other_id()) < 0 ==> t.basic_id@[1] is None,
        last_index(ms, of_type(1)) < 0 ==> t.location is None && t.location_t_us == 0,
        last_index(ms, of_type(3)) < 0 ==> t.self_id is None,
        last_index(ms, of_type(4)) < 0 ==> t.system is None,
        last_index(ms, of_type(5)) < 0 ==> t.operator_id is None,
{
    let i = chosen_slot(s, obs.src_mac@);
    law_chosen_slot(s, obs.src_mac@);
    lemma_count_where_len(ms, of_type(2));
    assert(!holds_mac(s, i, obs.src_mac@));
    assert(base_track(s[i], obs) == fresh_track(obs));
    let t1 = choose|t1: Track|
        seen_again(base_track(s[i], obs), t1, obs) && #[trigger] after_messages(
            t1,
            t,
            ms,
            obs.t_dev_us,
        );
    assert(t.rssi_avg_x16 == obs.rssi * 16);
}

/// A MAC that a slot holds is updated in that slot (no MAC sits in two): it
/// keeps its MAC and first sighting, takes this frame's time, counter,
/// channel and RSSI, counts one more frame (saturating), and moves its
/// average RSSI an eighth of the way to this frame's (the step rounded
/// toward zero), so the average moves whenever it is at least half a dBm
/// away and never passes the new reading.
pub proof fn law_seen_track(s: Seq<Option<Track>>, obs: RawObs, ms: Seq<Seq<u8>>, j: int, t: Track)
    requires
        s.len() == MAX_TRACKS,
        macs_unique(s),
        0 <= j < MAX_TRACKS,
        holds_mac(s, j, obs.src_mac@),
        updated_track(s[chosen_slot(s, obs.src_mac@)], obs, ms, t),
    ensures
        chosen_slot(s, obs.src_mac@) == j,
        t.mac == s[j]->0.mac,
        t.first_seen_us == s[j]->0.first_seen_us,
        t.last_seen_us == obs.t_dev_us,
        t.last_counter == obs.msg_counter,
        t.channel == obs.channel,
        t.rssi_last == obs.rssi,
        t.frames == if s[j]->0.frames < u32::MAX {
            s[j]->0.frames + 1
        } else {
            s[j]->0.frames as int
        },
        ({
            let a = s[j]->0.rssi_avg_x16 as int;
            let d = obs.rssi * 16 - a;
            &&& t.rssi_avg_x16 == a + if d >= 0 {
                d / 8
            } else {
                -((-d) / 8)
            }
            &&& (d >= 8 || d <= -8) ==> t.rssi_avg_x16 != a
            &&& d >= 0 ==> a <= t.rssi_avg_x16 <= obs.rssi * 16
            &&& d < 0 ==> obs.rssi * 16 <= t.rssi_avg_x16 <= a
        }),
{
    let i = chosen_slot(s, obs.src_mac@);
    law_chosen_slot(s, obs.src_mac@);
    assert(i == j);
    assert(base_track(s[i], obs) == s[j]->0);
    let t1 = choose|t1: Track|
        seen_again(base_track(s[i], obs), t1, obs) && #[trigger] after_messages(
            t1,
            t,
            ms,
            obs.t_dev_us,
        );
}

} // verus!
