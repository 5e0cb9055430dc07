//! The Wi-Fi beacon that carries a Remote ID pack in a vendor-specific
//! information element.

use vstd::prelude::*;

verus! {

#[derive(Clone, Copy, Debug, PartialEq, Eq)]
pub struct BeaconRid<'a> {
    pub src_mac: [u8; 6],
    pub msg_counter: u8,
    pub pack: &'a [u8],
}

#[derive(Clone, Copy, Debug, PartialEq, Eq)]
#[non_exhaustive]
pub enum BeaconError {
    TooShort,
    NotBeacon,
    TruncatedIe,
    NotRemoteId,
}

/// The element at `i` is vendor specific (0xDD), at least 5 bytes long, and
/// carries the ASTM OUI with the Open Drone ID type.
pub open spec fn is_rid_element(b: Seq<u8>, i: int) -> bool {
    &&& b[i] == 0xDD
    &&& b[i + 1] >= 5
    &&& b[i + 2] == 0xFA
    &&& b[i + 3] == 0x0B
    &&& b[i + 4] == 0xBC
    &&& b[i + 5] == 0x0D
}

/// Walks the information elements from offset `i` to the first Remote ID
/// element. On success: its message counter and where its pack begins and
/// ends. Elements after it are not read.
pub open spec fn walk_ies(b: Seq<u8>, i: int) -> Result<(u8, int, int), BeaconError>
    decreases b.len() - i,
{
    if i < 0 || i > b.len() {
        Err(BeaconError::TruncatedIe)
    } else if b.len() - i < 2 {
        if i == b.len() {
            Err(BeaconError::NotRemoteId)
        } else {
            Err(BeaconError::TruncatedIe)
        }
    } else if i + 2 + b[i + 1] > b.len() {
        Err(BeaconError::TruncatedIe)
    } else if is_rid_element(b, i) {
        Ok((b[i + 6], i + 7, i + 2 + b[i + 1]))
    } else {
        walk_ies(b, i + 2 + b[i + 1])
    }
}

/// What parsing the MPDU `b` gives: the source address (bytes 10–15), the
/// message counter and the pack of its first Remote ID element.
pub open spec fn spec_parse_beacon(b: Seq<u8>) -> Result<(Seq<u8>, u8, Seq<u8>), BeaconError> {
    if b.len() < 36 {
        Err(BeaconError::TooShort)
    } else if b[0] != 0x80 {
        Err(BeaconError::NotBeacon)
    } else {
        match walk_ies(b, 36) {
            Ok((counter, start, end)) => Ok((b.subrange(10, 16), counter, b.subrange(start, end))),
            Err(e) => Err(e),
        }
    }
}

/// Finds the Remote ID element of a beacon MPDU. Stops at the first match,
/// so a malformed element after it cannot reject a valid pack.
pub fn parse_beacon(mpdu: &[u8]) -> (r: Result<BeaconRid<'_>, BeaconError>)
    ensures
        match r {
            Ok(rid) => spec_parse_beacon(mpdu@) == Ok::<(Seq<u8>, u8, Seq<u8>), BeaconError>(
                (rid.src_mac@, rid.msg_counter, rid.pack@),
            ),
            Err(e) => spec_parse_beacon(mpdu@) == Err::<(Seq<u8>, u8, Seq<u8>), BeaconError>(e),
        },
{
    let len = mpdu.len();
    if len < 36 {
        return Err(BeaconError::TooShort);
    }
    if mpdu[0] != 0x80 {
        return Err(BeaconError::NotBeacon);
    }
    let mut src_mac = [0u8; 6];
    let mut k: usize = 0;
    while k < 6
        invariant
            len == mpdu@.len(),
            len >= 36,
            k <= 6,
            forall|j: int| 0 <= j < k ==> src_mac@[j] == mpdu@[10 + j],
        decreases 6 - k,
    {
        src_mac[k] = mpdu[10 + k];
        k = k + 1;
    }
    assert(src_mac@ =~= mpdu@.subrange(10, 16));
    let mut i: usize = 36;
    while len - i >= 2
        invariant
            len == mpdu@.len(),
            len >= 36,
            36 <= i <= len,
            mpdu@[0] == 0x80,
            src_mac@ == mpdu@.subrange(10, 16),
            walk_ies(mpdu@, 36) == walk_ies(mpdu@, i as int),
        decreases len - i,
    {
        let id = mpdu[i];
        let l = mpdu[i + 1] as usize;
        if l > len - i - 2 {
            return Err(BeaconError::TruncatedIe);
        }
        let next = i + 2 + l;
        if id == 0xDD && l >= 5 && mpdu[i + 2] == 0xFA && mpdu[i + 3] == 0x0B && mpdu[i + 4] == 0xBC
            && mpdu[i + 5] == 0x0D {
            let pack = vstd::slice::slice_subrange(mpdu, i + 7, next);
            return Ok(BeaconRid { src_mac, msg_counter: mpdu[i + 6], pack });
        }
        i = next;
    }
    if i == len {
        Err(BeaconError::NotRemoteId)
    } else {
        Err(BeaconError::TruncatedIe)
    }
}

proof fn lemma_walk_extends(b: Seq<u8>, extra: Seq<u8>, i: int)
    requires
        walk_ies(b, i) is Ok,
    ensures
        walk_ies(b + extra, i) == walk_ies(b, i),
        walk_ies(b, i) matches Ok((_, start, end)) && 0 <= start <= end <= b.len(),
    decreases b.len() - i,
{
    let c = b + extra;
    assert(c[i] == b[i] && c[i + 1] == b[i + 1]);
    if b[i + 1] >= 5 {
        assert(c[i + 2] == b[i + 2] && c[i + 3] == b[i + 3] && c[i + 4] == b[i + 4] && c[i + 5]
            == b[i + 5] && c[i + 6] == b[i + 6]);
    }
    if !is_rid_element(b, i) {
        lemma_walk_extends(b, extra, i + 2 + b[i + 1]);
    }
}

/// Bytes after a beacon's Remote ID element never change what it parses to:
/// the pack is found at the first match and nothing after it is read.
pub proof fn law_beacon_ignores_trailing_bytes(b: Seq<u8>, extra: Seq<u8>)
    requires
        spec_parse_beacon(b) is Ok,
    ensures
        spec_parse_beacon(b + extra) == spec_parse_beacon(b),
{
    let c = b + extra;
    assert(c[0] == b[0]);
    lemma_walk_extends(b, extra, 36);
    assert(c.subrange(10, 16) =~= b.subrange(10, 16));
    match walk_ies(b, 36) {
        Ok((counter, start, end)) => {
            assert(c.subrange(start, end) =~= b.subrange(start, end));
        },
        Err(_) => {},
    }
}

proof fn lemma_walk_prefix(b: Seq<u8>, c: Seq<u8>, i: int, end: int)
    requires
        walk_ies(b, i) matches Ok((_, _, e)) && e == end,
        end <= c.len(),
        forall|k: int| 0 <= k < end ==> c[k] == b[k],
    ensures
        walk_ies(c, i) == walk_ies(b, i),
        i + 2 <= end,
    decreases b.len() - i,
{
    assert(0 <= i && i + 2 <= b.len() && i + 2 + b[i + 1] <= b.len());
    if is_rid_element(b, i) {
        assert(end == i + 2 + b[i + 1]);
        assert(c[i] == b[i] && c[i + 1] == b[i + 1]);
        assert(c[i + 2] == b[i + 2] && c[i + 3] == b[i + 3] && c[i + 4] == b[i + 4] && c[i + 5]
            == b[i + 5] && c[i + 6] == b[i + 6]);
    } else {
        lemma_walk_prefix(b, c, i + 2 + b[i + 1], end);
        assert(c[i] == b[i] && c[i + 1] == b[i + 1]);
        if b[i + 1] >= 5 {
            assert(c[i + 2] == b[i + 2] && c[i + 3] == b[i + 3] && c[i + 4] == b[i + 4] && c[i
                + 5] == b[i + 5]);
        }
    }
}

/// Only the bytes up to the end of the first Remote ID element decide what
/// a beacon parses to: any MPDU that agrees with `b` there (whatever follows,
/// appended or corrupted) parses the same.
pub proof fn law_beacon_reads_only_to_rid_element(b: Seq<u8>, c: Seq<u8>)
    requires
        spec_parse_beacon(b) is Ok,
        walk_ies(b, 36) matches Ok((_, _, end)) && end <= c.len() && forall|k: int|
            0 <= k < end ==> c[k] == b[k],
    ensures
        spec_parse_beacon(c) == spec_parse_beacon(b),
{
    if let Ok((_, start, end)) = walk_ies(b, 36) {
        lemma_walk_prefix(b, c, 36, end);
        lemma_walk_extends(b, Seq::<u8>::empty(), 36);
        assert(c[0] == b[0]);
        assert(c.subrange(10, 16) =~= b.subrange(10, 16));
        assert(c.subrange(start, end) =~= b.subrange(start, end));
    }
}

} // verus!
