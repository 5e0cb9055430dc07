//! What the receiver does with each observation: it forwards it to the host
//! as received, then lets its pack update the track table.

use vstd::prelude::*;

use crate::pack::{parse_pack, spec_parse_pack};
use crate::proto::{Frame, FrameBuf, Obs, Payload, PACK_CAP};
use crate::radio::RawObs;
use crate::tracks::{chosen_slot, updated_track, TrackTable, MAX_TRACKS};
use crate::wire::{next_seq_after, send, wire_frame};

verus! {

/// The OBS payload `o` carries `obs` as the radio received it.
pub open spec fn forwards(o: Obs, obs: RawObs) -> bool {
    &&& o.channel == obs.channel
    &&& o.rssi_dbm == obs.rssi
    &&& o.source == 1
    &&& o.src_mac == obs.src_mac
    &&& o.msg_counter == obs.msg_counter
    &&& o.t_mac_us == obs.t_mac_us
    &&& o.ie_len == obs.ie_len
    &&& o.pack@ == obs.pack@.take(obs.pack_len as int)
}

/// The OBS payload for `obs`; source 1 is the Wi-Fi beacon radio.
pub fn obs_payload(obs: &RawObs) -> (o: Obs<'_>)
    requires
        obs.pack_len <= PACK_CAP,
    ensures
        forwards(o, *obs),
{
    let pack = vstd::slice::slice_subrange(obs.pack.as_slice(), 0, obs.pack_len as usize);
    Obs {
        channel: obs.channel,
        rssi_dbm: obs.rssi,
        source: 1,
        src_mac: obs.src_mac,
        msg_counter: obs.msg_counter,
        t_mac_us: obs.t_mac_us,
        ie_len: obs.ie_len,
        pack,
    }
}

/// Handles one observation: numbers and encodes its OBS frame (forwarded
/// before parsing, so the host also sees packs the device rejects), then
/// parses the pack and, if it parses, records it in `tracks`. Returns the
/// frame to queue and whether the pack was rejected; the caller counts a
/// drop on `None` and a pack error on `true`.
pub fn handle_obs(obs: &RawObs, next_seq: &mut u32, tracks: &mut TrackTable) -> (r: (
    Option<FrameBuf>,
    bool,
))
    requires
        obs.pack_len <= PACK_CAP,
    ensures
        *final(next_seq) == next_seq_after(*old(next_seq)),
        exists|o: Obs|
            #![trigger o.pack@]
            forwards(o, *obs) && wire_frame(
                Frame { seq: *old(next_seq), t_dev_us: obs.t_dev_us, payload: Payload::Obs(o) },
                r.0,
            ),
        r.1 <==> spec_parse_pack(obs.pack@.take(obs.pack_len as int)) is Err,
        spec_parse_pack(obs.pack@.take(obs.pack_len as int)) is Err ==> final(tracks)@ == old(
            tracks,
        )@,
        final(tracks)@.len() == MAX_TRACKS,
        spec_parse_pack(obs.pack@.take(obs.pack_len as int)) matches Ok(ms) ==> ({
            let i = chosen_slot(old(tracks)@, obs.src_mac@);
            &&& 0 <= i < MAX_TRACKS
            &&& forall|j: int|
                0 <= j < MAX_TRACKS && j != i ==> final(tracks)@[j] == old(tracks)@[j]
            &&& final(tracks)@[i] matches Some(t) && updated_track(old(tracks)@[i], *obs, ms, t)
        }),
{
    proof {
        tracks.lemma_slot_count();
    }
    let o = obs_payload(obs);
    let pack = o.pack;
    let ghost seq0 = *next_seq;
    let frame = send(next_seq, obs.t_dev_us, Payload::Obs(o));
    assert(wire_frame(
        Frame { seq: seq0, t_dev_us: obs.t_dev_us, payload: Payload::Obs(o) },
        frame,
    ));
    match parse_pack(pack) {
        Ok(msgs) => {
            tracks.update(obs, msgs);
            (frame, false)
        },
        Err(_) => (frame, true),
    }
}

} // verus!
