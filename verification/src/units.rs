//! Field accessors: the text fields, and the raw fields turned into their
//! units, each with its invalid markers. Values that the wire format scales
//! by a fraction are given in integer sub-units (half metres, quarter metres
//! per second, deciseconds, 1e-7 degrees).

use vstd::prelude::*;
use vstd::string::StringSliceAdditionalSpecFns;
use vstd::utf8::valid_utf8;

use crate::message::{le32, AuthPage, BasicId, Location, OperatorId, SelfId, System};
use crate::ODID_EPOCH_UNIX_S;

verus! {

/// `core::str::from_utf8`, with its error dropped. Its documentation says it
/// succeeds exactly on valid UTF-8 and then views the same bytes as a `str`.
#[verifier::external_body]
pub(crate) fn str_from_utf8(b: &[u8]) -> (r: Option<&str>)
    ensures
        r is Some <==> valid_utf8(b@),
        r matches Some(s) ==> s.spec_bytes() == b@,
{
    core::str::from_utf8(b).ok()
}

/// Number of bytes before the first NUL (all of them if there is none).
pub open spec fn nul_end(b: Seq<u8>) -> nat
    decreases b.len(),
{
    if b.len() == 0 || b[0] == 0 {
        0
    } else {
        1 + nul_end(b.drop_first())
    }
}

/// Length of the longest valid UTF-8 prefix of `p` that is at most `k` long.
pub open spec fn valid_prefix_len(p: Seq<u8>, k: nat) -> nat
    decreases k,
{
    if k == 0 || valid_utf8(p.take(k as int)) {
        k
    } else {
        valid_prefix_len(p, (k - 1) as nat)
    }
}

/// The text of a fixed-size field: the bytes before the first NUL, cut after
/// the last character that is valid UTF-8.
pub open spec fn text_bytes(b: Seq<u8>) -> Seq<u8> {
    let p = b.take(nul_end(b) as int);
    p.take(valid_prefix_len(p, p.len()) as int)
}

proof fn lemma_nul_end(b: Seq<u8>)
    ensures
        nul_end(b) <= b.len(),
        forall|j: int| 0 <= j < nul_end(b) ==> b[j] != 0,
        nul_end(b) < b.len() ==> b[nul_end(b) as int] == 0,
    decreases b.len(),
{
    if b.len() > 0 && b[0] != 0 {
        lemma_nul_end(b.drop_first());
        assert forall|j: int| 0 <= j < nul_end(b) implies b[j] != 0 by {
            if j > 0 {
                assert(b[j] == b.drop_first()[j - 1]);
            }
        }
    }
}

proof fn lemma_nul_end_unique(b: Seq<u8>, n: int)
    requires
        0 <= n <= b.len(),
        forall|j: int| 0 <= j < n ==> b[j] != 0,
        n < b.len() ==> b[n] == 0,
    ensures
        nul_end(b) == n,
    decreases b.len(),
{
    if n > 0 {
        assert forall|j: int| 0 <= j < n - 1 implies b.drop_first()[j] != 0 by {
            assert(b.drop_first()[j] == b[j + 1]);
        }
        lemma_nul_end_unique(b.drop_first(), n - 1);
    }
}

proof fn lemma_valid_prefix_len(p: Seq<u8>, k: nat)
    ensures
        valid_prefix_len(p, k) <= k,
    decreases k,
{
    if k > 0 && !valid_utf8(p.take(k as int)) {
        lemma_valid_prefix_len(p, (k - 1) as nat);
    }
}

/// Bytes before the first NUL; invalid UTF-8 is cut at the last valid char.
fn text(b: &[u8]) -> (s: &str)
    ensures
        s.spec_bytes() == text_bytes(b@),
{
    let len = b.len();
    let mut n: usize = 0;
    while n < len && b[n] != 0
        invariant
            len == b@.len(),
            n <= len,
            forall|j: int| 0 <= j < n ==> b@[j] != 0,
        decreases len - n,
    {
        n = n + 1;
    }
    proof {
        lemma_nul_end_unique(b@, n as int);
    }
    let p = vstd::slice::slice_subrange(b, 0, n);
    assert(p@ == b@.take(nul_end(b@) as int));
    let mut k: usize = n;
    loop
        invariant
            k <= n,
            n == p@.len(),
            p@ == b@.take(nul_end(b@) as int),
            valid_prefix_len(p@, n as nat) == valid_prefix_len(p@, k as nat),
        decreases k,
    {
        let cut = vstd::slice::slice_subrange(p, 0, k);
        assert(cut@ == p@.take(k as int));
        match str_from_utf8(cut) {
            Some(s) => {
                assert(valid_prefix_len(p@, k as nat) == k);
                assert(text_bytes(b@) == cut@);
                return s;
            },
            None => {
                assert(k != 0) by {
                    if k == 0 {
                        assert(cut@.len() == 0);
                    }
                }
                k = k - 1;
            },
        }
    }
}

impl BasicId {
    /// The UAS ID as text.
    pub fn as_str(&self) -> (s: &str)
        ensures
            s.spec_bytes() == text_bytes(self.uas_id@),
    {
        text(self.uas_id.as_slice())
    }
}

impl SelfId {
    /// The description as text.
    pub fn as_str(&self) -> (s: &str)
        ensures
            s.spec_bytes() == text_bytes(self.desc@),
    {
        text(self.desc.as_slice())
    }
}

impl OperatorId {
    /// The operator ID as text.
    pub fn as_str(&self) -> (s: &str)
        ensures
            s.spec_bytes() == text_bytes(self.operator_id@),
    {
        text(self.operator_id.as_slice())
    }
}

/// A position is invalid at (0, 0) or outside ±90° latitude, ±180° longitude.
pub open spec fn position_valid(lat_e7: i32, lon_e7: i32) -> bool {
    &&& !(lat_e7 == 0 && lon_e7 == 0)
    &&& -900_000_000 <= lat_e7 <= 900_000_000
    &&& -1_800_000_000 <= lon_e7 <= 1_800_000_000
}

fn position_ok(lat_e7: i32, lon_e7: i32) -> (r: bool)
    ensures
        r == position_valid(lat_e7, lon_e7),
{
    let invalid = (lat_e7 == 0 && lon_e7 == 0) || lat_e7 < -900_000_000 || lat_e7 > 900_000_000
        || lon_e7 < -1_800_000_000 || lon_e7 > 1_800_000_000;
    !invalid
}

/// Altitude in half metres above −1000 m; raw 0 is the invalid marker.
pub open spec fn spec_alt_half_m(v: u16) -> Option<i32> {
    if v != 0 {
        Some((v - 2000) as i32)
    } else {
        None
    }
}

fn alt(v: u16) -> (r: Option<i32>)
    ensures
        r == spec_alt_half_m(v),
{
    if v != 0 {
        Some(v as i32 - 2000)
    } else {
        None
    }
}

/// Direction over ground in whole degrees, east-west flag applied; `None`
/// above 360.
pub open spec fn spec_track_deg(l: Location) -> Option<u16> {
    let t = l.direction_raw + if l.ew_direction != 0 {
        180int
    } else {
        0int
    };
    if t <= 360 {
        Some(t as u16)
    } else {
        None
    }
}

/// Horizontal speed in quarter metres per second: `raw` at multiplier 0,
/// `3 * raw + 255` at multiplier 1, where raw 255 is the invalid marker.
pub open spec fn spec_speed_h_quarter(l: Location) -> Option<u16> {
    if l.speed_mult == 0 {
        Some(l.speed_h_raw as u16)
    } else if l.speed_h_raw == 255 {
        None
    } else {
        Some((3 * l.speed_h_raw + 255) as u16)
    }
}

/// Vertical speed in half metres per second; raw 126 is the invalid marker.
pub open spec fn spec_speed_v_half(l: Location) -> Option<i8> {
    if l.speed_v_raw != 126 {
        Some(l.speed_v_raw)
    } else {
        None
    }
}

/// Tenths of a second past the hour; `None` above one hour.
pub open spec fn spec_timestamp_ds(l: Location) -> Option<u16> {
    if l.timestamp_raw <= 36000 {
        Some(l.timestamp_raw)
    } else {
        None
    }
}

impl Location {
    /// Direction over ground in whole degrees, east-west flag applied;
    /// `None` above 360.
    pub fn track_deg(&self) -> (r: Option<u16>)
        ensures
            r == spec_track_deg(*self),
    {
        let t = (self.direction_raw as u16) + if self.ew_direction != 0 {
            180
        } else {
            0
        };
        if t <= 360 {
            Some(t)
        } else {
            None
        }
    }

    /// Horizontal speed in quarter metres per second: `raw` at multiplier 0,
    /// `3 * raw + 255` at multiplier 1, where raw 255 is the invalid marker.
    pub fn speed_h_quarter_mps(&self) -> (r: Option<u16>)
        ensures
            r == spec_speed_h_quarter(*self),
    {
        if self.speed_mult == 0 {
            Some(self.speed_h_raw as u16)
        } else if self.speed_h_raw == 255 {
            None
        } else {
            Some(3 * (self.speed_h_raw as u16) + 255)
        }
    }

    /// Vertical speed in half metres per second; raw 126 is the invalid marker.
    pub fn speed_v_half_mps(&self) -> (r: Option<i8>)
        ensures
            r == spec_speed_v_half(*self),
    {
        if self.speed_v_raw != 126 {
            Some(self.speed_v_raw)
        } else {
            None
        }
    }

    /// Latitude in 1e-7 degrees, when the position is valid.
    pub fn latitude_e7(&self) -> (r: Option<i32>)
        ensures
            r == if position_valid(self.lat_e7, self.lon_e7) {
                Some(self.lat_e7)
            } else {
                None
            },
    {
        if position_ok(self.lat_e7, self.lon_e7) {
            Some(self.lat_e7)
        } else {
            None
        }
    }

    /// Longitude in 1e-7 degrees, when the position is valid.
    pub fn longitude_e7(&self) -> (r: Option<i32>)
        ensures
            r == if position_valid(self.lat_e7, self.lon_e7) {
                Some(self.lon_e7)
            } else {
                None
            },
    {
        if position_ok(self.lat_e7, self.lon_e7) {
            Some(self.lon_e7)
        } else {
            None
        }
    }

    pub fn alt_baro_half_m(&self) -> (r: Option<i32>)
        ensures
            r == spec_alt_half_m(self.alt_baro_raw),
    {
        alt(self.alt_baro_raw)
    }

    pub fn alt_geo_half_m(&self) -> (r: Option<i32>)
        ensures
            r == spec_alt_half_m(self.alt_geo_raw),
    {
        alt(self.alt_geo_raw)
    }

    pub fn height_half_m(&self) -> (r: Option<i32>)
        ensures
            r == spec_alt_half_m(self.height_raw),
    {
        alt(self.height_raw)
    }

    /// Tenths of a second past the hour; `None` above one hour.
    pub fn timestamp_ds(&self) -> (r: Option<u16>)
        ensures
            r == spec_timestamp_ds(*self),
    {
        if self.timestamp_raw <= 36000 {
            Some(self.timestamp_raw)
        } else {
            None
        }
    }
}

impl System {
    /// Operator latitude in 1e-7 degrees, when the position is valid.
    pub fn latitude_e7(&self) -> (r: Option<i32>)
        ensures
            r == if position_valid(self.op_lat_e7, self.op_lon_e7) {
                Some(self.op_lat_e7)
            } else {
                None
            },
    {
        if position_ok(self.op_lat_e7, self.op_lon_e7) {
            Some(self.op_lat_e7)
        } else {
            None
        }
    }

    /// Operator longitude in 1e-7 degrees, when the position is valid.
    pub fn longitude_e7(&self) -> (r: Option<i32>)
        ensures
            r == if position_valid(self.op_lat_e7, self.op_lon_e7) {
                Some(self.op_lon_e7)
            } else {
                None
            },
    {
        if position_ok(self.op_lat_e7, self.op_lon_e7) {
            Some(self.op_lon_e7)
        } else {
            None
        }
    }

    /// Area radius in metres (raw × 10); there is no invalid value.
    pub fn area_radius_m(&self) -> (r: u16)
        ensures
            r == 10 * self.area_radius_raw,
    {
        (self.area_radius_raw as u16) * 10
    }

    pub fn area_ceiling_half_m(&self) -> (r: Option<i32>)
        ensures
            r == spec_alt_half_m(self.area_ceiling_raw),
    {
        alt(self.area_ceiling_raw)
    }

    pub fn area_floor_half_m(&self) -> (r: Option<i32>)
        ensures
            r == spec_alt_half_m(self.area_floor_raw),
    {
        alt(self.area_floor_raw)
    }

    pub fn op_alt_geo_half_m(&self) -> (r: Option<i32>)
        ensures
            r == spec_alt_half_m(self.op_alt_geo_raw),
    {
        alt(self.op_alt_geo_raw)
    }

    /// Unix time of the message: seconds since 2019-01-01 plus that epoch.
    pub fn timestamp_unix_s(&self) -> (r: u64)
        ensures
            r == self.timestamp + ODID_EPOCH_UNIX_S,
    {
        (self.timestamp as u64) + ODID_EPOCH_UNIX_S
    }
}

impl AuthPage {
    /// `None` unless this is page 0; later pages carry only signature bytes.
    fn page0(&self) -> (r: Option<&[u8; 23]>)
        ensures
            r == if self.data_page == 0 {
                Some(&self.data)
            } else {
                None
            },
    {
        if self.data_page == 0 {
            Some(&self.data)
        } else {
            None
        }
    }

    pub fn last_page_index(&self) -> (r: Option<u8>)
        ensures
            r == if self.data_page == 0 {
                Some(self.data@[0])
            } else {
                None
            },
    {
        match self.page0() {
            Some(d) => Some(d[0]),
            None => None,
        }
    }

    pub fn length(&self) -> (r: Option<u8>)
        ensures
            r == if self.data_page == 0 {
                Some(self.data@[1])
            } else {
                None
            },
    {
        match self.page0() {
            Some(d) => Some(d[1]),
            None => None,
        }
    }

    /// Unix time of the signature: the little-endian seconds since
    /// 2019-01-01 in data bytes 2–5, plus that epoch.
    pub fn timestamp_unix_s(&self) -> (r: Option<u64>)
        ensures
            r == if self.data_page == 0 {
                Some(
                    (le32(self.data@[2], self.data@[3], self.data@[4], self.data@[5])
                        + ODID_EPOCH_UNIX_S) as u64,
                )
            } else {
                None
            },
    {
        match self.page0() {
            Some(d) => {
                let secs = (d[2] as u64) + (d[3] as u64) * 256 + (d[4] as u64) * 65536 + (d[5] as u64)
                    * 16777216;
                Some(secs + ODID_EPOCH_UNIX_S)
            },
            None => None,
        }
    }
}

} // verus!
