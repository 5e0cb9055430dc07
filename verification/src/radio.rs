//! What the radio side decides: which received frames become observations,
//! and which channel to listen on.

use vstd::prelude::*;

use crate::beacon::{parse_beacon, spec_parse_beacon, BeaconError};
use crate::proto::PACK_CAP;

verus! {

/// A Remote ID pack as received, with its reception metadata.
#[derive(Clone, Copy, Debug, PartialEq, Eq)]
pub struct RawObs {
    pub t_dev_us: u64,
    pub t_mac_us: u32,
    pub channel: u8,
    pub rssi: i8,
    pub src_mac: [u8; 6],
    pub msg_counter: u8,
    pub ie_len: u8,
    pub pack_len: u8,
    pub pack: [u8; PACK_CAP],
}

#[derive(Clone, Copy, Debug, PartialEq, Eq)]
pub enum RadioCmd {
    SetFixed(u8),
    SetHop,
}

/// The channels visited in hop mode, in order.
pub open spec fn hop_channel(i: int) -> u8 {
    if i == 0 {
        1
    } else if i == 1 {
        6
    } else {
        11
    }
}

/// What became of one received frame; each outcome but the first counts a
/// management frame, and the last three a beacon.
#[derive(Clone, Copy, Debug, PartialEq, Eq)]
pub enum Sniffed {
    NotManagement,
    Management,
    Beacon,
    BeaconError,
    Rid(RawObs),
}

/// The MPDU of a received frame: `len` counts the 4-byte FCS, and frames
/// shorter than 40 bytes or longer than the buffer are dropped.
pub open spec fn mpdu_of(data: Seq<u8>, len: int) -> Option<Seq<u8>> {
    let n = if len >= 4 {
        len - 4
    } else {
        0
    };
    if len >= 40 && n <= data.len() {
        Some(data.take(n))
    } else {
        None
    }
}

/// The RSSI clamped to the range of `i8`.
pub open spec fn clamp_rssi(rssi: i32) -> i8 {
    if rssi < -128 {
        -128i8
    } else if rssi > 127 {
        127i8
    } else {
        rssi as i8
    }
}

/// `obs` records the Remote ID element (`mac`, `counter`, `pack`) of a
/// frame received at the given times, on the given channel and RSSI.
pub open spec fn observation(
    obs: RawObs,
    mac: Seq<u8>,
    counter: u8,
    pack: Seq<u8>,
    t_dev_us: u64,
    t_mac_us: u32,
    channel: u8,
    rssi: i32,
) -> bool {
    let n = if pack.len() < PACK_CAP {
        pack.len()
    } else {
        PACK_CAP as nat
    };
    &&& obs.t_dev_us == t_dev_us
    &&& obs.t_mac_us == t_mac_us
    &&& obs.channel == channel
    &&& obs.rssi == clamp_rssi(rssi)
    &&& obs.src_mac@ == mac
    &&& obs.msg_counter == counter
    &&& obs.ie_len == ((pack.len() + 5) % 256) as u8
    &&& obs.pack_len == n
    &&& obs.pack@.take(n as int) == pack.take(n as int)
    &&& forall|i: int| n <= i < PACK_CAP ==> obs.pack@[i] == 0
}

/// Classifies a frame the sniffer received: only management frames
/// received without error whose MPDU is a beacon are parsed, and a beacon
/// with a Remote ID element becomes an observation. The pack is cut at
/// `PACK_CAP` bytes.
pub fn classify_frame(
    frame_type: u32,
    rx_state: u32,
    data: &[u8],
    len: usize,
    t_dev_us: u64,
    t_mac_us: u32,
    channel: u8,
    rssi: i32,
) -> (r: Sniffed)
    ensures
        frame_type != 0 ==> r == Sniffed::NotManagement,
        frame_type == 0 && rx_state != 0 ==> r == Sniffed::Management,
        frame_type == 0 && rx_state == 0 ==> match mpdu_of(data@, len as int) {
            None => r == Sniffed::Management,
            Some(m) => if m[0] != 0x80 {
                r == Sniffed::Management
            } else {
                match spec_parse_beacon(m) {
                    Err(BeaconError::NotRemoteId) => r == Sniffed::Beacon,
                    Err(_) => r == Sniffed::BeaconError,
                    Ok((mac, counter, pack)) => r matches Sniffed::Rid(obs) && observation(
                        obs,
                        mac,
                        counter,
                        pack,
                        t_dev_us,
                        t_mac_us,
                        channel,
                        rssi,
                    ),
                }
            },
        },
{
    if frame_type != 0 {
        return Sniffed::NotManagement;
    }
    if rx_state != 0 {
        return Sniffed::Management;
    }
    let n = if len >= 4 {
        len - 4
    } else {
        0
    };
    if len < 40 || n > data.len() {
        return Sniffed::Management;
    }
    let mpdu = vstd::slice::slice_subrange(data, 0, n);
    assert(mpdu@ == data@.take(n as int));
    if mpdu[0] != 0x80 {
        return Sniffed::Management;
    }
    let rid = match parse_beacon(mpdu) {
        Ok(rid) => rid,
        Err(BeaconError::NotRemoteId) => return Sniffed::Beacon,
        Err(_) => return Sniffed::BeaconError,
    };
    let plen = rid.pack.len();
    let pack_len = if plen < PACK_CAP {
        plen
    } else {
        PACK_CAP
    };
    let mut pack = [0u8; PACK_CAP];
    let mut k: usize = 0;
    while k < pack_len
        invariant
            pack_len <= PACK_CAP,
            pack_len <= rid.pack@.len(),
            k <= pack_len,
            forall|j: int| 0 <= j < k ==> pack@[j] == rid.pack@[j],
            forall|j: int| pack_len <= j < PACK_CAP ==> pack@[j] == 0,
        decreases pack_len - k,
    {
        pack[k] = rid.pack[k];
        k = k + 1;
    }
    assert(pack@.take(pack_len as int) =~= rid.pack@.take(pack_len as int));
    let rssi8: i8 = if rssi < -128 {
        -128
    } else if rssi > 127 {
        127
    } else {
        rssi as i8
    };
    Sniffed::Rid(
        RawObs {
            t_dev_us,
            t_mac_us,
            channel,
            rssi: rssi8,
            src_mac: rid.src_mac,
            msg_counter: rid.msg_counter,
            ie_len: ((plen % 256 + 5) % 256) as u8,
            pack_len: pack_len as u8,
            pack,
        },
    )
}

/// The channel state of the radio: fixed or hopping, and where in the hop
/// sequence it is.
#[derive(Clone, Copy, Debug, PartialEq, Eq)]
pub struct RadioState {
    pub hop_mode: bool,
    pub hop: usize,
}

/// What the radio task is woken by.
#[derive(Clone, Copy, Debug, PartialEq, Eq)]
pub enum RadioEvent {
    Cmd(RadioCmd),
    Tick,
}

/// What the radio task does: switch to a channel, and whether the hop timer
/// restarts.
#[derive(Clone, Copy, Debug, PartialEq, Eq)]
pub struct RadioAction {
    pub set_channel: Option<u8>,
    pub reset_ticker: bool,
}

impl RadioState {
    /// Fixed on channel 6, where the radio starts.
    pub fn new() -> (s: RadioState)
        ensures
            s == (RadioState { hop_mode: false, hop: 0 }),
    {
        RadioState { hop_mode: false, hop: 0 }
    }

    /// One event: a fixed channel 1–13 leaves hop mode and switches to it
    /// (other channels are ignored); hop mode starts at channel 1 and
    /// restarts the timer; each tick in hop mode moves on 1 → 6 → 11 → 1.
    pub fn step(&mut self, ev: RadioEvent) -> (a: RadioAction)
        ensures
            old(self).hop < 3 ==> final(self).hop < 3,
            match ev {
                RadioEvent::Cmd(RadioCmd::SetFixed(ch)) => if 1 <= ch <= 13 {
                    *final(self) == RadioState { hop_mode: false, ..*old(self) } && a
                        == RadioAction { set_channel: Some(ch), reset_ticker: false }
                } else {
                    *final(self) == *old(self) && a == RadioAction {
                        set_channel: None,
                        reset_ticker: false,
                    }
                },
                RadioEvent::Cmd(RadioCmd::SetHop) => *final(self) == RadioState {
                    hop_mode: true,
                    hop: 0,
                } && a == RadioAction { set_channel: Some(1), reset_ticker: true },
                RadioEvent::Tick => if old(self).hop_mode {
                    final(self).hop_mode && final(self).hop == (old(self).hop + 1) % 3 && a
                        == RadioAction {
                        set_channel: Some(hop_channel((old(self).hop + 1) % 3)),
                        reset_ticker: false,
                    }
                } else {
                    *final(self) == *old(self) && a == RadioAction {
                        set_channel: None,
                        reset_ticker: false,
                    }
                },
            },
    {
        let seq: [u8; 3] = [1, 6, 11];
        match ev {
            RadioEvent::Cmd(RadioCmd::SetFixed(ch)) => {
                if 1 <= ch && ch <= 13 {
                    self.hop_mode = false;
                    RadioAction { set_channel: Some(ch), reset_ticker: false }
                } else {
                    RadioAction { set_channel: None, reset_ticker: false }
                }
            },
            RadioEvent::Cmd(RadioCmd::SetHop) => {
                self.hop_mode = true;
                self.hop = 0;
                RadioAction { set_channel: Some(seq[0]), reset_ticker: true }
            },
            RadioEvent::Tick => {
                if self.hop_mode {
                    self.hop = (self.hop % 3 + 1) % 3;
                    RadioAction { set_channel: Some(seq[self.hop]), reset_ticker: false }
                } else {
                    RadioAction { set_channel: None, reset_ticker: false }
                }
            },
        }
    }
}

} // verus!
