//! The text lines of the display: the header, the first line of each list
//! row, the empty-screen message, and the fifteen lines of the detail view.
//! Quantities that the wire format scales by a fraction are printed from
//! their exact integer sub-units, with the decimals of the fraction.

use vstd::prelude::*;
use vstd::string::StringSliceAdditionalSpecFns;

use crate::message::{BasicId, Location, System};
use crate::tracks::Track;
use crate::ui::{
    appended, first_basic_id, label, label_text, lemma_appended_concat, location_status, mac,
    mac_text, secs, status_char, status_colour, Color, Line,
};
use crate::units::{
    position_valid, spec_alt_half_m, spec_speed_h_quarter, spec_speed_v_half, spec_timestamp_ds,
    spec_track_deg, text_bytes,
};

verus! {

/// The decimal digits of `n`.
pub open spec fn dec(n: nat) -> Seq<u8>
    decreases n,
{
    if n < 10 {
        seq![(0x30 + n) as u8]
    } else {
        dec(n / 10).push((0x30 + n % 10) as u8)
    }
}

/// The last `w` decimal digits of `n`, with leading zeros.
pub open spec fn pad(n: nat, w: nat) -> Seq<u8>
    decreases w,
{
    if w == 0 {
        seq![]
    } else {
        pad(n / 10, (w - 1) as nat).push((0x30 + n % 10) as u8)
    }
}

/// `v` in decimal, with a minus sign when negative.
pub open spec fn signed_dec(v: int) -> Seq<u8> {
    if v < 0 {
        seq![0x2du8] + dec((-v) as nat)
    } else {
        dec(v as nat)
    }
}

/// `-` before a negative value.
pub open spec fn minus(v: int) -> Seq<u8> {
    if v < 0 {
        seq![0x2du8]
    } else {
        seq![]
    }
}

/// `v` / 10^7 with seven decimals.
pub open spec fn e7_text(v: int) -> Seq<u8> {
    let a = if v < 0 {
        -v
    } else {
        v
    };
    minus(v) + dec((a / 10_000_000) as nat) + seq![0x2eu8] + pad((a % 10_000_000) as nat, 7)
}

/// `v` / 2 with one decimal; `plus` puts `+` before a value that is not
/// negative.
pub open spec fn halves_text(v: int, plus: bool) -> Seq<u8> {
    let a = if v < 0 {
        -v
    } else {
        v
    };
    let sign = if v < 0 {
        seq![0x2du8]
    } else if plus {
        seq![0x2bu8]
    } else {
        seq![]
    };
    sign + dec((a / 2) as nat) + seq![0x2eu8, (0x30 + (a % 2) * 5) as u8]
}

/// `v` / 4 with two decimals.
pub open spec fn quarters_text(v: nat) -> Seq<u8> {
    dec(v / 4) + seq![0x2eu8] + pad((v % 4) * 25, 2)
}

/// `v` / 10 with one decimal.
pub open spec fn tenths_text(v: nat) -> Seq<u8> {
    dec(v / 10) + seq![0x2eu8, (0x30 + v % 10) as u8]
}

/// Appends the decimal digits of `n`.
fn push_dec(l: &mut Line, n: u64)
    ensures
        final(l)@ == appended(old(l)@, dec(n as nat)),
    decreases n,
{
    if n >= 10 {
        push_dec(l, n / 10);
    }
    l.push_byte(0x30 + (n % 10) as u8);
    proof {
        if n >= 10 {
            lemma_appended_concat(old(l)@, dec((n / 10) as nat), seq![(0x30 + n % 10) as u8]);
            assert(dec((n / 10) as nat) + seq![(0x30 + n % 10) as u8] =~= dec(n as nat));
        } else {
            assert(seq![(0x30 + n % 10) as u8] =~= dec(n as nat));
        }
    }
}

/// Appends the last `w` digits of `n`, with leading zeros.
fn push_pad(l: &mut Line, n: u64, w: u32)
    requires
        w >= 1,
    ensures
        final(l)@ == appended(old(l)@, pad(n as nat, w as nat)),
    decreases w,
{
    let d = 0x30 + (n % 10) as u8;
    if w > 1 {
        push_pad(l, n / 10, w - 1);
        l.push_byte(d);
        proof {
            lemma_appended_concat(old(l)@, pad((n / 10) as nat, (w - 1) as nat), seq![d]);
            assert(pad((n / 10) as nat, (w - 1) as nat) + seq![d] =~= pad(n as nat, w as nat));
        }
    } else {
        l.push_byte(d);
        assert(seq![d] =~= pad(n as nat, w as nat));
    }
}

/// Appends `v` in decimal, with a minus sign when negative.
fn push_signed(l: &mut Line, v: i64)
    ensures
        final(l)@ == appended(old(l)@, signed_dec(v as int)),
{
    if v < 0 {
        l.push_byte(0x2d);
        let a: u64 = if v == i64::MIN {
            0x8000_0000_0000_0000
        } else {
            (-v) as u64
        };
        push_dec(l, a);
        proof {
            lemma_appended_concat(old(l)@, seq![0x2du8], dec(a as nat));
        }
    } else {
        push_dec(l, v as u64);
    }
}

/// Appends `v` / 10^7 with seven decimals.
fn push_e7(l: &mut Line, v: i32)
    ensures
        final(l)@ == appended(old(l)@, e7_text(v as int)),
{
    let a: u64 = if v < 0 {
        (-(v as i64)) as u64
    } else {
        v as u64
    };
    let ghost l0 = l@;
    if v < 0 {
        l.push_byte(0x2d);
    }
    push_dec(l, a / 10_000_000);
    l.push_byte(0x2e);
    push_pad(l, a % 10_000_000, 7);
    proof {
        let p1 = dec((a / 10_000_000) as nat);
        let p3 = pad((a % 10_000_000) as nat, 7);
        let tail = p1 + seq![0x2eu8] + p3;
        if v < 0 {
            lemma_appended_concat(l0, seq![0x2du8], p1);
            lemma_appended_concat(l0, seq![0x2du8] + p1, seq![0x2eu8]);
            lemma_appended_concat(l0, seq![0x2du8] + p1 + seq![0x2eu8], p3);
            assert(e7_text(v as int) =~= seq![0x2du8] + p1 + seq![0x2eu8] + p3);
        } else {
            lemma_appended_concat(l0, p1, seq![0x2eu8]);
            lemma_appended_concat(l0, p1 + seq![0x2eu8], p3);
            assert(e7_text(v as int) =~= p1 + seq![0x2eu8] + p3);
        }
    }
}

/// Appends `v` / 2 with one decimal, and `+` before a value that is not
/// negative when `plus`.
fn push_halves(l: &mut Line, v: i32, plus: bool)
    ensures
        final(l)@ == appended(old(l)@, halves_text(v as int, plus)),
{
    let a: u64 = if v < 0 {
        (-(v as i64)) as u64
    } else {
        v as u64
    };
    let ghost l0 = l@;
    let signed = v < 0 || plus;
    if v < 0 {
        l.push_byte(0x2d);
    } else if plus {
        l.push_byte(0x2b);
    }
    push_dec(l, a / 2);
    l.push_byte(0x2e);
    l.push_byte(0x30 + ((a % 2) * 5) as u8);
    proof {
        let p1 = dec((a / 2) as nat);
        let d = seq![0x2eu8, (0x30 + (a % 2) * 5) as u8];
        assert(seq![0x2eu8] + seq![(0x30 + (a % 2) * 5) as u8] =~= d);
        if signed {
            let sg = if v < 0 {
                seq![0x2du8]
            } else {
                seq![0x2bu8]
            };
            lemma_appended_concat(l0, sg, p1);
            lemma_appended_concat(l0, sg + p1, seq![0x2eu8]);
            lemma_appended_concat(l0, sg + p1 + seq![0x2eu8], seq![(0x30 + (a % 2) * 5) as u8]);
            assert(sg + p1 + seq![0x2eu8] + seq![(0x30 + (a % 2) * 5) as u8] =~= sg + p1 + d);
            assert(halves_text(v as int, plus) =~= sg + p1 + d);
        } else {
            lemma_appended_concat(l0, p1, seq![0x2eu8]);
            lemma_appended_concat(l0, p1 + seq![0x2eu8], seq![(0x30 + (a % 2) * 5) as u8]);
            assert(p1 + seq![0x2eu8] + seq![(0x30 + (a % 2) * 5) as u8] =~= p1 + d);
            assert(halves_text(v as int, plus) =~= p1 + d);
        }
    }
}

/// Appends `v` / 4 with two decimals.
fn push_quarters(l: &mut Line, v: u16)
    ensures
        final(l)@ == appended(old(l)@, quarters_text(v as nat)),
{
    let ghost l0 = l@;
    push_dec(l, (v / 4) as u64);
    l.push_byte(0x2e);
    push_pad(l, ((v % 4) * 25) as u64, 2);
    proof {
        let p1 = dec((v / 4) as nat);
        lemma_appended_concat(l0, p1, seq![0x2eu8]);
        lemma_appended_concat(l0, p1 + seq![0x2eu8], pad(((v % 4) * 25) as nat, 2));
    }
}

/// Appends `v` / 10 with one decimal.
fn push_tenths(l: &mut Line, v: u16)
    ensures
        final(l)@ == appended(old(l)@, tenths_text(v as nat)),
{
    let ghost l0 = l@;
    push_dec(l, (v / 10) as u64);
    l.push_byte(0x2e);
    l.push_byte(0x30 + (v % 10) as u8);
    proof {
        let p1 = dec((v / 10) as nat);
        let c = (0x30 + v % 10) as u8;
        lemma_appended_concat(l0, p1, seq![0x2eu8]);
        lemma_appended_concat(l0, p1 + seq![0x2eu8], seq![c]);
        assert(p1 + seq![0x2eu8] + seq![c] =~= tenths_text(v as nat));
    }
}

// ---------------------------------------------------------------------------
// The lines
// ---------------------------------------------------------------------------

/// The text of an optional ID-like field, empty when absent.
pub open spec fn id_text(id: Option<BasicId>) -> Seq<u8> {
    match id {
        Some(i) => text_bytes(i.uas_id@),
        None => seq![],
    }
}

/// The name of an operational status, `---` when unknown.
pub open spec fn status_name(s: Option<u8>) -> Seq<u8> {
    match s {
        Some(0) => "UNDECLARED".spec_bytes(),
        Some(1) => "GROUND".spec_bytes(),
        Some(2) => "AIRBORNE".spec_bytes(),
        Some(3) => "EMERGENCY".spec_bytes(),
        Some(4) => "RID-FAIL".spec_bytes(),
        _ => "---".spec_bytes(),
    }
}

/// The name of a UA type, `---` when unknown.
pub open spec fn ua_name(u: Option<u8>) -> Seq<u8> {
    match u {
        Some(0) => "NONE".spec_bytes(),
        Some(1) => "AEROPLANE".spec_bytes(),
        Some(2) => "MULTIROTOR".spec_bytes(),
        Some(3) => "GYROPLANE".spec_bytes(),
        Some(4) => "HYBRID".spec_bytes(),
        Some(5) => "ORNITHOPTER".spec_bytes(),
        Some(6) => "GLIDER".spec_bytes(),
        Some(7) => "KITE".spec_bytes(),
        Some(8) => "FREE-BALLOON".spec_bytes(),
        Some(9) => "CAPTIVE-BALLOON".spec_bytes(),
        Some(10) => "AIRSHIP".spec_bytes(),
        Some(11) => "PARACHUTE".spec_bytes(),
        Some(12) => "ROCKET".spec_bytes(),
        Some(13) => "TETHERED".spec_bytes(),
        Some(14) => "GROUND-OBSTACLE".spec_bytes(),
        Some(15) => "OTHER".spec_bytes(),
        _ => "---".spec_bytes(),
    }
}

fn status_str(s: Option<u8>) -> (r: &'static str)
    ensures
        r.spec_bytes() == status_name(s),
{
    match s {
        Some(0) => "UNDECLARED",
        Some(1) => "GROUND",
        Some(2) => "AIRBORNE",
        Some(3) => "EMERGENCY",
        Some(4) => "RID-FAIL",
        _ => "---",
    }
}

fn ua_str(u: Option<u8>) -> (r: &'static str)
    ensures
        r.spec_bytes() == ua_name(u),
{
    match u {
        Some(0) => "NONE",
        Some(1) => "AEROPLANE",
        Some(2) => "MULTIROTOR",
        Some(3) => "GYROPLANE",
        Some(4) => "HYBRID",
        Some(5) => "ORNITHOPTER",
        Some(6) => "GLIDER",
        Some(7) => "KITE",
        Some(8) => "FREE-BALLOON",
        Some(9) => "CAPTIVE-BALLOON",
        Some(10) => "AIRSHIP",
        Some(11) => "PARACHUTE",
        Some(12) => "ROCKET",
        Some(13) => "TETHERED",
        Some(14) => "GROUND-OBSTACLE",
        Some(15) => "OTHER",
        _ => "---",
    }
}

/// A value in half units with one decimal, `---` when absent.
pub open spec fn opt_halves(v: Option<i32>) -> Seq<u8> {
    match v {
        Some(h) => halves_text(h as int, false),
        None => "---".spec_bytes(),
    }
}

/// `v` / 16 rounded toward zero, as integer division does.
pub open spec fn trunc16(v: i16) -> int {
    if v >= 0 {
        v / 16
    } else {
        -((-v) / 16)
    }
}

/// Whole seconds from `t` to `now`, 0 if `t` is later.
pub open spec fn age_s(now: u64, t: u64) -> nat {
    if now >= t {
        ((now - t) / 1_000_000) as nat
    } else {
        0
    }
}

pub open spec fn loc_alt(loc: Option<Location>, which: int) -> Option<i32> {
    match loc {
        Some(l) => spec_alt_half_m(
            if which == 0 {
                l.alt_geo_raw
            } else if which == 1 {
                l.alt_baro_raw
            } else {
                l.height_raw
            },
        ),
        None => None,
    }
}

/// Detail line 2: the MAC, channel, last and average RSSI.
pub open spec fn mac_line(t: Track) -> Seq<u8> {
    "MAC ".spec_bytes() + mac_text(t.mac@) + " CH ".spec_bytes() + dec(t.channel as nat)
        + " RSSI ".spec_bytes() + signed_dec(t.rssi_last as int) + " (".spec_bytes() + signed_dec(
        trunc16(t.rssi_avg_x16),
    ) + ")".spec_bytes()
}

/// Detail line 3: the operational status and the UA type.
pub open spec fn status_line(t: Track) -> Seq<u8> {
    let st = match t.location {
        Some(l) => Some(l.status),
        None => None,
    };
    let ua = match first_basic_id(t.basic_id) {
        Some(i) => Some(i.ua_type),
        None => None,
    };
    "ST ".spec_bytes() + status_name(st) + " UA ".spec_bytes() + ua_name(ua)
}

/// Detail line 4: the aircraft position.
pub open spec fn lat_line(loc: Option<Location>) -> Seq<u8> {
    "LAT ".spec_bytes() + match loc {
        Some(l) => if position_valid(l.lat_e7, l.lon_e7) {
            e7_text(l.lat_e7 as int) + " LON ".spec_bytes() + e7_text(l.lon_e7 as int)
        } else {
            "--- LON ---".spec_bytes()
        },
        None => "--- LON ---".spec_bytes(),
    }
}

/// Detail line 5: geodetic and barometric altitude.
pub open spec fn alt_line(loc: Option<Location>) -> Seq<u8> {
    "ALT geo ".spec_bytes() + opt_halves(loc_alt(loc, 0)) + "m baro ".spec_bytes() + opt_halves(
        loc_alt(loc, 1),
    ) + "m".spec_bytes()
}

/// Detail line 6: height and what it is measured from.
pub open spec fn height_line(loc: Option<Location>) -> Seq<u8> {
    let reference = match loc {
        Some(l) => if l.height_type == 0 {
            "TO".spec_bytes()
        } else {
            "AGL".spec_bytes()
        },
        None => "---".spec_bytes(),
    };
    "HGT ".spec_bytes() + opt_halves(loc_alt(loc, 2)) + "m ".spec_bytes() + reference
}

/// Detail line 7: horizontal speed, vertical speed and track.
pub open spec fn speed_line(loc: Option<Location>) -> Seq<u8> {
    let h = match loc {
        Some(l) => spec_speed_h_quarter(l),
        None => None,
    };
    let v = match loc {
        Some(l) => spec_speed_v_half(l),
        None => None,
    };
    let d = match loc {
        Some(l) => spec_track_deg(l),
        None => None,
    };
    "SPD ".spec_bytes() + match h {
        Some(q) => quarters_text(q as nat),
        None => "---".spec_bytes(),
    } + "m/s VS ".spec_bytes() + match v {
        Some(x) => halves_text(x as int, true),
        None => "---".spec_bytes(),
    } + match d {
        Some(x) => " TRK ".spec_bytes() + dec(x as nat),
        None => " TRK ---".spec_bytes(),
    }
}

/// Detail line 8: the timestamp and the age of the position.
pub open spec fn time_line(t: Track, now: u64) -> Seq<u8> {
    let ts = match t.location {
        Some(l) => spec_timestamp_ds(l),
        None => None,
    };
    "TS ".spec_bytes() + match ts {
        Some(x) => tenths_text(x as nat),
        None => "---".spec_bytes(),
    } + match t.location {
        Some(_) => "s past hour, fix age ".spec_bytes() + dec(age_s(now, t.location_t_us))
            + "s".spec_bytes(),
        None => "s past hour, fix age ---".spec_bytes(),
    }
}

/// Detail line 9: the operator position.
pub open spec fn op_line(sys: Option<System>) -> Seq<u8> {
    "OP ".spec_bytes() + match sys {
        Some(s) => if position_valid(s.op_lat_e7, s.op_lon_e7) {
            e7_text(s.op_lat_e7 as int) + " ".spec_bytes() + e7_text(s.op_lon_e7 as int)
        } else {
            "--- ---".spec_bytes()
        },
        None => "--- ---".spec_bytes(),
    }
}

/// Detail line 10: the operator altitude and how the operator position is
/// known.
pub open spec fn op_alt_line(sys: Option<System>) -> Seq<u8> {
    let alt = match sys {
        Some(s) => spec_alt_half_m(s.op_alt_geo_raw),
        None => None,
    };
    let kind = match sys {
        Some(s) => if s.operator_location_type == 0 {
            "TAKEOFF".spec_bytes()
        } else if s.operator_location_type == 1 {
            "LIVE".spec_bytes()
        } else if s.operator_location_type == 2 {
            "FIXED".spec_bytes()
        } else {
            "---".spec_bytes()
        },
        None => "---".spec_bytes(),
    };
    "OPALT ".spec_bytes() + opt_halves(alt) + "m ".spec_bytes() + kind
}

/// Detail line `k` (0 to 14, where 14 stands for any larger `k`) of track
/// `t` at `now`, before it is cut to a line.
pub open spec fn detail_text(k: usize, t: Track, now: u64) -> Seq<u8> {
    if k == 0 {
        "ID  ".spec_bytes() + id_text(t.basic_id@[0])
    } else if k == 1 {
        "ID2 ".spec_bytes() + id_text(t.basic_id@[1])
    } else if k == 2 {
        mac_line(t)
    } else if k == 3 {
        status_line(t)
    } else if k == 4 {
        lat_line(t.location)
    } else if k == 5 {
        alt_line(t.location)
    } else if k == 6 {
        height_line(t.location)
    } else if k == 7 {
        speed_line(t.location)
    } else if k == 8 {
        time_line(t, now)
    } else if k == 9 {
        op_line(t.system)
    } else if k == 10 {
        op_alt_line(t.system)
    } else if k == 11 {
        "OPID ".spec_bytes() + match t.operator_id {
            Some(o) => text_bytes(o.operator_id@),
            None => seq![],
        }
    } else if k == 12 {
        "SELF ".spec_bytes() + match t.self_id {
            Some(s) => text_bytes(s.desc@),
            None => seq![],
        }
    } else if k == 13 {
        "FRAMES ".spec_bytes() + dec(t.frames as nat) + " CTR ".spec_bytes() + dec(
            t.last_counter as nat,
        ) + " AUTH ".spec_bytes() + dec(t.auth_msgs as nat)
    } else {
        "SEEN ".spec_bytes() + dec(age_s(now, t.first_seen_us)) + "s ago".spec_bytes()
    }
}

// ---------------------------------------------------------------------------
// Building a line piece by piece: `acc` is what was appended so far
// ---------------------------------------------------------------------------

fn start() -> (l: Line)
    ensures
        l@ == appended(seq![], seq![]),
{
    let l = Line::new();
    assert(appended(seq![], seq![]) =~= Seq::<u8>::empty());
    l
}

fn add_str(l: &mut Line, s: &str, acc: Ghost<Seq<u8>>)
    requires
        old(l)@ == appended(seq![], acc@),
    ensures
        final(l)@ == appended(seq![], acc@ + s.spec_bytes()),
{
    l.write_str(s);
    proof {
        lemma_appended_concat(seq![], acc@, s.spec_bytes());
    }
}

fn add_bytes(l: &mut Line, b: &[u8], acc: Ghost<Seq<u8>>)
    requires
        old(l)@ == appended(seq![], acc@),
    ensures
        final(l)@ == appended(seq![], acc@ + b@),
{
    l.push_bytes(b);
    proof {
        lemma_appended_concat(seq![], acc@, b@);
    }
}

fn add_dec(l: &mut Line, n: u64, acc: Ghost<Seq<u8>>)
    requires
        old(l)@ == appended(seq![], acc@),
    ensures
        final(l)@ == appended(seq![], acc@ + dec(n as nat)),
{
    push_dec(l, n);
    proof {
        lemma_appended_concat(seq![], acc@, dec(n as nat));
    }
}

fn add_signed(l: &mut Line, v: i64, acc: Ghost<Seq<u8>>)
    requires
        old(l)@ == appended(seq![], acc@),
    ensures
        final(l)@ == appended(seq![], acc@ + signed_dec(v as int)),
{
    push_signed(l, v);
    proof {
        lemma_appended_concat(seq![], acc@, signed_dec(v as int));
    }
}

fn add_e7(l: &mut Line, v: i32, acc: Ghost<Seq<u8>>)
    requires
        old(l)@ == appended(seq![], acc@),
    ensures
        final(l)@ == appended(seq![], acc@ + e7_text(v as int)),
{
    push_e7(l, v);
    proof {
        lemma_appended_concat(seq![], acc@, e7_text(v as int));
    }
}

fn add_halves(l: &mut Line, v: Option<i32>, acc: Ghost<Seq<u8>>)
    requires
        old(l)@ == appended(seq![], acc@),
    ensures
        final(l)@ == appended(seq![], acc@ + opt_halves(v)),
{
    match v {
        Some(h) => {
            push_halves(l, h, false);
            proof {
                lemma_appended_concat(seq![], acc@, halves_text(h as int, false));
            }
        },
        None => add_str(l, "---", acc),
    }
}

fn add_quarters(l: &mut Line, v: u16, acc: Ghost<Seq<u8>>)
    requires
        old(l)@ == appended(seq![], acc@),
    ensures
        final(l)@ == appended(seq![], acc@ + quarters_text(v as nat)),
{
    push_quarters(l, v);
    proof {
        lemma_appended_concat(seq![], acc@, quarters_text(v as nat));
    }
}

fn add_plus_halves(l: &mut Line, v: i8, acc: Ghost<Seq<u8>>)
    requires
        old(l)@ == appended(seq![], acc@),
    ensures
        final(l)@ == appended(seq![], acc@ + halves_text(v as int, true)),
{
    push_halves(l, v as i32, true);
    proof {
        lemma_appended_concat(seq![], acc@, halves_text(v as int, true));
    }
}

fn add_tenths(l: &mut Line, v: u16, acc: Ghost<Seq<u8>>)
    requires
        old(l)@ == appended(seq![], acc@),
    ensures
        final(l)@ == appended(seq![], acc@ + tenths_text(v as nat)),
{
    push_tenths(l, v);
    proof {
        lemma_appended_concat(seq![], acc@, tenths_text(v as nat));
    }
}

/// A line of a fixed prefix and an optional text field.
fn text_field_line(prefix: &str, text: Option<&str>) -> (l: Line)
    ensures
        l@ == appended(
            seq![],
            prefix.spec_bytes() + match text {
                Some(t) => t.spec_bytes(),
                None => seq![],
            },
        ),
{
    let mut l = start();
    let ghost a0 = Seq::<u8>::empty();
    add_str(&mut l, prefix, Ghost(a0));
    let ghost a = a0 + prefix.spec_bytes();
    match text {
        Some(t) => {
            add_str(&mut l, t, Ghost(a));
            assert(a + t.spec_bytes() =~= prefix.spec_bytes() + t.spec_bytes());
        },
        None => {
            assert(a =~= prefix.spec_bytes() + Seq::<u8>::empty());
        },
    }
    l
}

fn build_mac_line(t: &Track) -> (l: Line)
    ensures
        l@ == appended(seq![], mac_line(*t)),
{
    let mut l = start();
    let ghost a0 = Seq::<u8>::empty();
    add_str(&mut l, "MAC ", Ghost(a0));
    let ghost a1 = a0 + "MAC ".spec_bytes();
    let m = mac(&t.mac);
    add_bytes(&mut l, m.as_slice(), Ghost(a1));
    let ghost a2 = a1 + mac_text(t.mac@);
    add_str(&mut l, " CH ", Ghost(a2));
    let ghost a3 = a2 + " CH ".spec_bytes();
    add_dec(&mut l, t.channel as u64, Ghost(a3));
    let ghost a4 = a3 + dec(t.channel as nat);
    add_str(&mut l, " RSSI ", Ghost(a4));
    let ghost a5 = a4 + " RSSI ".spec_bytes();
    add_signed(&mut l, t.rssi_last as i64, Ghost(a5));
    let ghost a6 = a5 + signed_dec(t.rssi_last as int);
    add_str(&mut l, " (", Ghost(a6));
    let ghost a7 = a6 + " (".spec_bytes();
    let v = t.rssi_avg_x16 as i32;
    let avg: i32 = if v >= 0 {
        v / 16
    } else {
        -((-v) / 16)
    };
    add_signed(&mut l, avg as i64, Ghost(a7));
    let ghost a8 = a7 + signed_dec(trunc16(t.rssi_avg_x16));
    add_str(&mut l, ")", Ghost(a8));
    assert(a8 + ")".spec_bytes() =~= mac_line(*t));
    l
}

fn build_status_line(t: &Track) -> (l: Line)
    ensures
        l@ == appended(seq![], status_line(*t)),
{
    let st = match t.location {
        Some(loc) => Some(loc.status),
        None => None,
    };
    let id = match t.basic_id[0] {
        Some(i) => Some(i),
        None => t.basic_id[1],
    };
    let ua = match id {
        Some(i) => Some(i.ua_type),
        None => None,
    };
    let mut l = start();
    let ghost a0 = Seq::<u8>::empty();
    add_str(&mut l, "ST ", Ghost(a0));
    let ghost a1 = a0 + "ST ".spec_bytes();
    add_str(&mut l, status_str(st), Ghost(a1));
    let ghost a2 = a1 + status_name(st);
    add_str(&mut l, " UA ", Ghost(a2));
    let ghost a3 = a2 + " UA ".spec_bytes();
    add_str(&mut l, ua_str(ua), Ghost(a3));
    assert(a3 + ua_name(ua) =~= status_line(*t));
    l
}

/// A position as `lat<sep>lon`, or `none` when there is none.
fn add_position(
    l: &mut Line,
    p: Option<(i32, i32)>,
    sep: &str,
    none: &str,
    acc: Ghost<Seq<u8>>,
)
    requires
        old(l)@ == appended(seq![], acc@),
    ensures
        final(l)@ == appended(
            seq![],
            acc@ + match p {
                Some((la, lo)) => if position_valid(la, lo) {
                    e7_text(la as int) + sep.spec_bytes() + e7_text(lo as int)
                } else {
                    none.spec_bytes()
                },
                None => none.spec_bytes(),
            },
        ),
{
    match p {
        Some((la, lo)) => {
            let valid = !(la == 0 && lo == 0) && -900_000_000 <= la && la <= 900_000_000
                && -1_800_000_000 <= lo && lo <= 1_800_000_000;
            if valid {
                add_e7(l, la, acc);
                let ghost a1 = acc@ + e7_text(la as int);
                add_str(l, sep, Ghost(a1));
                let ghost a2 = a1 + sep.spec_bytes();
                add_e7(l, lo, Ghost(a2));
                assert(a2 + e7_text(lo as int) =~= acc@ + (e7_text(la as int) + sep.spec_bytes()
                    + e7_text(lo as int)));
            } else {
                add_str(l, none, acc);
            }
        },
        None => add_str(l, none, acc),
    }
}

fn build_lat_line(loc: Option<Location>) -> (l: Line)
    ensures
        l@ == appended(seq![], lat_line(loc)),
{
    let mut l = start();
    let ghost a0 = Seq::<u8>::empty();
    add_str(&mut l, "LAT ", Ghost(a0));
    let ghost a1 = a0 + "LAT ".spec_bytes();
    let p = match loc {
        Some(x) => Some((x.lat_e7, x.lon_e7)),
        None => None,
    };
    add_position(&mut l, p, " LON ", "--- LON ---", Ghost(a1));
    assert(l@ == appended(seq![], lat_line(loc))) by {
        let tail = match p {
            Some((la, lo)) => if position_valid(la, lo) {
                e7_text(la as int) + " LON ".spec_bytes() + e7_text(lo as int)
            } else {
                "--- LON ---".spec_bytes()
            },
            None => "--- LON ---".spec_bytes(),
        };
        assert(a1 + tail =~= lat_line(loc));
    }
    l
}

fn loc_half(loc: Option<Location>, which: u8) -> (r: Option<i32>)
    requires
        which < 3,
    ensures
        r == loc_alt(loc, which as int),
{
    match loc {
        Some(x) => {
            let v = if which == 0 {
                x.alt_geo_raw
            } else if which == 1 {
                x.alt_baro_raw
            } else {
                x.height_raw
            };
            if v != 0 {
                Some(v as i32 - 2000)
            } else {
                None
            }
        },
        None => None,
    }
}

fn build_alt_line(loc: Option<Location>) -> (l: Line)
    ensures
        l@ == appended(seq![], alt_line(loc)),
{
    let mut l = start();
    let ghost a0 = Seq::<u8>::empty();
    add_str(&mut l, "ALT geo ", Ghost(a0));
    let ghost a1 = a0 + "ALT geo ".spec_bytes();
    add_halves(&mut l, loc_half(loc, 0), Ghost(a1));
    let ghost a2 = a1 + opt_halves(loc_alt(loc, 0));
    add_str(&mut l, "m baro ", Ghost(a2));
    let ghost a3 = a2 + "m baro ".spec_bytes();
    add_halves(&mut l, loc_half(loc, 1), Ghost(a3));
    let ghost a4 = a3 + opt_halves(loc_alt(loc, 1));
    add_str(&mut l, "m", Ghost(a4));
    assert(a4 + "m".spec_bytes() =~= alt_line(loc));
    l
}

fn build_height_line(loc: Option<Location>) -> (l: Line)
    ensures
        l@ == appended(seq![], height_line(loc)),
{
    let mut l = start();
    let ghost a0 = Seq::<u8>::empty();
    add_str(&mut l, "HGT ", Ghost(a0));
    let ghost a1 = a0 + "HGT ".spec_bytes();
    add_halves(&mut l, loc_half(loc, 2), Ghost(a1));
    let ghost a2 = a1 + opt_halves(loc_alt(loc, 2));
    add_str(&mut l, "m ", Ghost(a2));
    let ghost a3 = a2 + "m ".spec_bytes();
    let reference = match loc {
        Some(x) => if x.height_type == 0 {
            "TO"
        } else {
            "AGL"
        },
        None => "---",
    };
    add_str(&mut l, reference, Ghost(a3));
    assert(a3 + reference.spec_bytes() =~= height_line(loc));
    l
}

fn build_speed_line(loc: Option<Location>) -> (l: Line)
    ensures
        l@ == appended(seq![], speed_line(loc)),
{
    let (h, v, d) = match loc {
        Some(x) => (x.speed_h_quarter_mps(), x.speed_v_half_mps(), x.track_deg()),
        None => (None, None, None),
    };
    let mut l = start();
    let ghost a0 = Seq::<u8>::empty();
    add_str(&mut l, "SPD ", Ghost(a0));
    let ghost a1 = a0 + "SPD ".spec_bytes();
    let ghost hp = match h {
        Some(q) => quarters_text(q as nat),
        None => "---".spec_bytes(),
    };
    match h {
        Some(q) => add_quarters(&mut l, q, Ghost(a1)),
        None => add_str(&mut l, "---", Ghost(a1)),
    }
    let ghost a2 = a1 + hp;
    add_str(&mut l, "m/s VS ", Ghost(a2));
    let ghost a3 = a2 + "m/s VS ".spec_bytes();
    let ghost vp = match v {
        Some(x) => halves_text(x as int, true),
        None => "---".spec_bytes(),
    };
    match v {
        Some(x) => add_plus_halves(&mut l, x, Ghost(a3)),
        None => add_str(&mut l, "---", Ghost(a3)),
    }
    let ghost a4 = a3 + vp;
    match d {
        Some(x) => {
            add_str(&mut l, " TRK ", Ghost(a4));
            let ghost a5 = a4 + " TRK ".spec_bytes();
            add_dec(&mut l, x as u64, Ghost(a5));
            assert(a5 + dec(x as nat) =~= speed_line(loc));
        },
        None => {
            add_str(&mut l, " TRK ---", Ghost(a4));
            assert(a4 + " TRK ---".spec_bytes() =~= speed_line(loc));
        },
    }
    l
}

fn build_time_line(t: &Track, now: u64) -> (l: Line)
    ensures
        l@ == appended(seq![], time_line(*t, now)),
{
    let ts = match t.location {
        Some(x) => x.timestamp_ds(),
        None => None,
    };
    let mut l = start();
    let ghost a0 = Seq::<u8>::empty();
    add_str(&mut l, "TS ", Ghost(a0));
    let ghost a1 = a0 + "TS ".spec_bytes();
    let ghost tp = match ts {
        Some(x) => tenths_text(x as nat),
        None => "---".spec_bytes(),
    };
    match ts {
        Some(x) => add_tenths(&mut l, x, Ghost(a1)),
        None => add_str(&mut l, "---", Ghost(a1)),
    }
    let ghost a2 = a1 + tp;
    match t.location {
        Some(_) => {
            add_str(&mut l, "s past hour, fix age ", Ghost(a2));
            let ghost a3 = a2 + "s past hour, fix age ".spec_bytes();
            let age = secs(now, t.location_t_us);
            add_dec(&mut l, age, Ghost(a3));
            let ghost a4 = a3 + dec(age as nat);
            add_str(&mut l, "s", Ghost(a4));
            assert(a4 + "s".spec_bytes() =~= time_line(*t, now));
        },
        None => {
            add_str(&mut l, "s past hour, fix age ---", Ghost(a2));
            assert(a2 + "s past hour, fix age ---".spec_bytes() =~= time_line(*t, now));
        },
    }
    l
}

fn build_op_line(sys: Option<System>) -> (l: Line)
    ensures
        l@ == appended(seq![], op_line(sys)),
{
    let mut l = start();
    let ghost a0 = Seq::<u8>::empty();
    add_str(&mut l, "OP ", Ghost(a0));
    let ghost a1 = a0 + "OP ".spec_bytes();
    let p = match sys {
        Some(x) => Some((x.op_lat_e7, x.op_lon_e7)),
        None => None,
    };
    add_position(&mut l, p, " ", "--- ---", Ghost(a1));
    assert(l@ == appended(seq![], op_line(sys))) by {
        let tail = match p {
            Some((la, lo)) => if position_valid(la, lo) {
                e7_text(la as int) + " ".spec_bytes() + e7_text(lo as int)
            } else {
                "--- ---".spec_bytes()
            },
            None => "--- ---".spec_bytes(),
        };
        assert(a1 + tail =~= op_line(sys));
    }
    l
}

fn build_op_alt_line(sys: Option<System>) -> (l: Line)
    ensures
        l@ == appended(seq![], op_alt_line(sys)),
{
    let (alt, kind) = match sys {
        Some(x) => (
            x.op_alt_geo_half_m(),
            if x.operator_location_type == 0 {
                "TAKEOFF"
            } else if x.operator_location_type == 1 {
                "LIVE"
            } else if x.operator_location_type == 2 {
                "FIXED"
            } else {
                "---"
            },
        ),
        None => (None, "---"),
    };
    let mut l = start();
    let ghost a0 = Seq::<u8>::empty();
    add_str(&mut l, "OPALT ", Ghost(a0));
    let ghost a1 = a0 + "OPALT ".spec_bytes();
    add_halves(&mut l, alt, Ghost(a1));
    let ghost a2 = a1 + opt_halves(alt);
    add_str(&mut l, "m ", Ghost(a2));
    let ghost a3 = a2 + "m ".spec_bytes();
    add_str(&mut l, kind, Ghost(a3));
    assert(a3 + kind.spec_bytes() =~= op_alt_line(sys));
    l
}

fn build_frames_line(t: &Track) -> (l: Line)
    ensures
        l@ == appended(seq![], detail_text(13, *t, 0)),
{
    let mut l = start();
    let ghost a0 = Seq::<u8>::empty();
    add_str(&mut l, "FRAMES ", Ghost(a0));
    let ghost a1 = a0 + "FRAMES ".spec_bytes();
    add_dec(&mut l, t.frames as u64, Ghost(a1));
    let ghost a2 = a1 + dec(t.frames as nat);
    add_str(&mut l, " CTR ", Ghost(a2));
    let ghost a3 = a2 + " CTR ".spec_bytes();
    add_dec(&mut l, t.last_counter as u64, Ghost(a3));
    let ghost a4 = a3 + dec(t.last_counter as nat);
    add_str(&mut l, " AUTH ", Ghost(a4));
    let ghost a5 = a4 + " AUTH ".spec_bytes();
    add_dec(&mut l, t.auth_msgs as u64, Ghost(a5));
    assert(a5 + dec(t.auth_msgs as nat) =~= detail_text(13, *t, 0));
    l
}

fn build_seen_line(t: &Track, now: u64) -> (l: Line)
    ensures
        l@ == appended(seq![], detail_text(14, *t, now)),
{
    let mut l = start();
    let ghost a0 = Seq::<u8>::empty();
    add_str(&mut l, "SEEN ", Ghost(a0));
    let ghost a1 = a0 + "SEEN ".spec_bytes();
    let age = secs(now, t.first_seen_us);
    add_dec(&mut l, age, Ghost(a1));
    let ghost a2 = a1 + dec(age as nat);
    add_str(&mut l, "s ago", Ghost(a2));
    assert(a2 + "s ago".spec_bytes() =~= detail_text(14, *t, now));
    l
}

/// Line `k` of the detail view of track `t` at `now`: 0–1 the Basic IDs,
/// 2 the MAC and reception, 3 status and UA type, 4 position, 5 altitudes,
/// 6 height, 7 speeds and track, 8 timestamp and fix age, 9–10 operator
/// position and altitude, 11 operator ID, 12 self ID, 13 counts, and from 14
/// on how long ago the track was first seen.
pub fn detail_line(k: usize, t: &Track, now: u64) -> (l: Line)
    ensures
        l@ == appended(seq![], detail_text(k, *t, now)),
{
    if k == 0 {
        let id = match &t.basic_id[0] {
            Some(i) => Some(i.as_str()),
            None => None,
        };
        text_field_line("ID  ", id)
    } else if k == 1 {
        let id = match &t.basic_id[1] {
            Some(i) => Some(i.as_str()),
            None => None,
        };
        text_field_line("ID2 ", id)
    } else if k == 2 {
        build_mac_line(t)
    } else if k == 3 {
        build_status_line(t)
    } else if k == 4 {
        build_lat_line(t.location)
    } else if k == 5 {
        build_alt_line(t.location)
    } else if k == 6 {
        build_height_line(t.location)
    } else if k == 7 {
        build_speed_line(t.location)
    } else if k == 8 {
        build_time_line(t, now)
    } else if k == 9 {
        build_op_line(t.system)
    } else if k == 10 {
        build_op_alt_line(t.system)
    } else if k == 11 {
        let s = match &t.operator_id {
            Some(o) => Some(o.as_str()),
            None => None,
        };
        text_field_line("OPID ", s)
    } else if k == 12 {
        let s = match &t.self_id {
            Some(o) => Some(o.as_str()),
            None => None,
        };
        text_field_line("SELF ", s)
    } else if k == 13 {
        build_frames_line(t)
    } else {
        build_seen_line(t, now)
    }
}

// ---------------------------------------------------------------------------
// Header, list rows and the empty screen
// ---------------------------------------------------------------------------

/// `n` spaces.
pub open spec fn spaces(n: nat) -> Seq<u8> {
    Seq::new(n, |i: int| 0x20u8)
}

/// `n` in decimal with at least two digits.
pub open spec fn two_digits(n: nat) -> Seq<u8> {
    if n < 10 {
        pad(n, 2)
    } else {
        dec(n)
    }
}

/// The header: channel, fixed or hopping, visible tracks, Remote ID frames
/// (last six digits) and dropped frames.
pub open spec fn header_text(channel: u8, hop: bool, visible: usize, rid_frames: u32, dropped: u32) -> Seq<u8> {
    "CH".spec_bytes() + two_digits(channel as nat) + if hop {
        " HOP".spec_bytes()
    } else {
        " FIX".spec_bytes()
    } + "  TRK ".spec_bytes() + dec(visible as nat) + if visible < 10 {
        " ".spec_bytes()
    } else {
        seq![]
    } + " RID ".spec_bytes() + pad((rid_frames % 1_000_000) as nat, 6) + " DROP ".spec_bytes()
        + dec(dropped as nat)
}

/// What the screen says when no track is shown.
pub open spec fn empty_text(channel: u8, hop: bool) -> Seq<u8> {
    if hop {
        "No Remote ID on HOP".spec_bytes()
    } else {
        "No Remote ID on CH".spec_bytes() + two_digits(channel as nat)
    }
}

/// `s` cut or padded with spaces to exactly `w` bytes.
pub open spec fn fit(s: Seq<u8>, w: nat) -> Seq<u8> {
    if s.len() >= w {
        s.take(w as int)
    } else {
        s + spaces((w - s.len()) as nat)
    }
}

/// The first line of a list row: a `>` before the selected track, the
/// label in 20 columns, and the age in seconds (at most 99) right-aligned
/// in 19.
pub open spec fn row_title_text(t: Track, now: u64, selected: Option<[u8; 6]>) -> Seq<u8> {
    let marker = if selected matches Some(m) && m@ == t.mac@ {
        0x3eu8
    } else {
        0x20u8
    };
    let a = age_s(now, t.last_seen_us);
    let age = dec(if a < 99 {
        a
    } else {
        99
    }) + "s".spec_bytes();
    seq![marker] + fit(label_text(t), 20) + spaces((19 - age.len()) as nat) + age
}

fn push_spaces(l: &mut Line, n: usize)
    requires
        n >= 1,
    ensures
        final(l)@ == appended(old(l)@, spaces(n as nat)),
    decreases n,
{
    if n > 1 {
        push_spaces(l, n - 1);
        l.push_byte(0x20);
        proof {
            lemma_appended_concat(old(l)@, spaces((n - 1) as nat), seq![0x20u8]);
            assert(spaces((n - 1) as nat) + seq![0x20u8] =~= spaces(n as nat));
        }
    } else {
        l.push_byte(0x20);
        assert(seq![0x20u8] =~= spaces(n as nat));
    }
}

fn add_spaces(l: &mut Line, n: usize, acc: Ghost<Seq<u8>>)
    requires
        old(l)@ == appended(seq![], acc@),
    ensures
        final(l)@ == appended(seq![], acc@ + spaces(n as nat)),
{
    if n > 0 {
        push_spaces(l, n);
        proof {
            lemma_appended_concat(seq![], acc@, spaces(n as nat));
        }
    } else {
        assert(acc@ + spaces(0) =~= acc@);
    }
}

fn add_two_digits(l: &mut Line, n: u64, acc: Ghost<Seq<u8>>)
    requires
        old(l)@ == appended(seq![], acc@),
    ensures
        final(l)@ == appended(seq![], acc@ + two_digits(n as nat)),
{
    if n < 10 {
        push_pad(l, n, 2);
        proof {
            lemma_appended_concat(seq![], acc@, pad(n as nat, 2));
        }
    } else {
        add_dec(l, n, acc);
    }
}

/// The header line; the dropped count is the observations and frames
/// dropped, shown up to 9999.
pub fn header_line(channel: u8, hop: bool, visible: usize, rid_frames: u32, obs_dropped: u32, tx_dropped: u32) -> (l: Line)
    requires
        obs_dropped + tx_dropped <= u32::MAX,
    ensures
        l@ == appended(
            seq![],
            header_text(
                channel,
                hop,
                visible,
                rid_frames,
                if obs_dropped + tx_dropped < 9999 {
                    (obs_dropped + tx_dropped) as u32
                } else {
                    9999
                },
            ),
        ),
{
    let sum = obs_dropped + tx_dropped;
    let dropped: u32 = if sum < 9999 {
        sum
    } else {
        9999
    };
    let mut l = start();
    let ghost a0 = Seq::<u8>::empty();
    add_str(&mut l, "CH", Ghost(a0));
    let ghost a1 = a0 + "CH".spec_bytes();
    add_two_digits(&mut l, channel as u64, Ghost(a1));
    let ghost a2 = a1 + two_digits(channel as nat);
    let mode = if hop {
        " HOP"
    } else {
        " FIX"
    };
    add_str(&mut l, mode, Ghost(a2));
    let ghost a3 = a2 + mode.spec_bytes();
    add_str(&mut l, "  TRK ", Ghost(a3));
    let ghost a4 = a3 + "  TRK ".spec_bytes();
    add_dec(&mut l, visible as u64, Ghost(a4));
    let ghost a5 = a4 + dec(visible as nat);
    let gap = if visible < 10 {
        " "
    } else {
        ""
    };
    add_str(&mut l, gap, Ghost(a5));
    let ghost a6 = a5 + gap.spec_bytes();
    add_str(&mut l, " RID ", Ghost(a6));
    let ghost a7 = a6 + " RID ".spec_bytes();
    push_pad(&mut l, (rid_frames % 1_000_000) as u64, 6);
    proof {
        lemma_appended_concat(seq![], a7, pad((rid_frames % 1_000_000) as nat, 6));
    }
    let ghost a8 = a7 + pad((rid_frames % 1_000_000) as nat, 6);
    add_str(&mut l, " DROP ", Ghost(a8));
    let ghost a9 = a8 + " DROP ".spec_bytes();
    add_dec(&mut l, dropped as u64, Ghost(a9));
    proof {
        if visible >= 10 {
            assert("".spec_bytes() =~= Seq::<u8>::empty()) by {
                reveal_strlit("");
            }
        }
        assert(a9 + dec(dropped as nat) =~= header_text(channel, hop, visible, rid_frames, dropped));
    }
    l
}

/// The line shown when no track is on screen.
pub fn empty_line(channel: u8, hop: bool) -> (l: Line)
    ensures
        l@ == appended(seq![], empty_text(channel, hop)),
{
    let mut l = start();
    let ghost a0 = Seq::<u8>::empty();
    if hop {
        add_str(&mut l, "No Remote ID on HOP", Ghost(a0));
        assert(a0 + "No Remote ID on HOP".spec_bytes() =~= empty_text(channel, hop));
    } else {
        add_str(&mut l, "No Remote ID on CH", Ghost(a0));
        let ghost a1 = a0 + "No Remote ID on CH".spec_bytes();
        add_two_digits(&mut l, channel as u64, Ghost(a1));
        assert(a1 + two_digits(channel as nat) =~= empty_text(channel, hop));
    }
    l
}

/// The first line of the list row of track `t` at `now`.
pub fn row_title_line(t: &Track, now: u64, selected: Option<[u8; 6]>) -> (l: Line)
    ensures
        l@ == appended(seq![], row_title_text(*t, now, selected)),
{
    let is_sel = match selected {
        Some(m) => crate::tracks::mac_eq(&m, &t.mac),
        None => false,
    };
    let marker: u8 = if is_sel {
        0x3e
    } else {
        0x20
    };
    let a = secs(now, t.last_seen_us);
    let a99: u64 = if a < 99 {
        a
    } else {
        99
    };
    let lab = label(t);
    let text = lab.as_str().as_bytes();
    let n = text.len();
    let mut l = start();
    let ghost a0 = Seq::<u8>::empty();
    let mk = [marker];
    add_bytes(&mut l, mk.as_slice(), Ghost(a0));
    let ghost a1 = a0 + seq![marker];
    assert(mk@ =~= seq![marker]);
    let ghost lt = label_text(*t);
    if n >= 20 {
        let cut = vstd::slice::slice_subrange(text, 0, 20);
        add_bytes(&mut l, cut, Ghost(a1));
        assert(cut@ =~= fit(lt, 20));
    } else {
        add_bytes(&mut l, text, Ghost(a1));
        let ghost a1b = a1 + lt;
        add_spaces(&mut l, 20 - n, Ghost(a1b));
        assert(lt + spaces((20 - n) as nat) =~= fit(lt, 20));
        assert(a1b + spaces((20 - n) as nat) =~= a1 + fit(lt, 20));
    }
    let ghost a2 = a1 + fit(lt, 20);
    let digits: usize = if a99 < 10 {
        1
    } else {
        2
    };
    proof {
        if a99 < 10 {
            assert(dec(a99 as nat).len() == 1);
        } else {
            assert(dec(a99 as nat) == dec((a99 / 10) as nat).push((0x30 + a99 % 10) as u8));
            assert(dec((a99 / 10) as nat).len() == 1);
        }
    }
    let ghost age = dec(a99 as nat) + "s".spec_bytes();
    proof {
        reveal_strlit("s");
        assert("s"@ =~= seq!['s']);
        assert("s".spec_bytes().len() == 1) by {
            let cs = "s"@;
            assert(cs.drop_first() =~= Seq::<char>::empty());
            assert(vstd::utf8::encode_utf8(cs.drop_first()) =~= Seq::<u8>::empty());
            assert(cs[0] as u32 == 0x73);
            assert(vstd::utf8::encode_scalar(cs[0] as u32).len() == 1);
            assert(vstd::utf8::encode_utf8(cs) == vstd::utf8::encode_scalar(cs[0] as u32)
                + vstd::utf8::encode_utf8(cs.drop_first()));
        }
        assert(age.len() == digits + 1);
    }
    add_spaces(&mut l, 19 - (digits + 1), Ghost(a2));
    let ghost a3 = a2 + spaces((19 - (digits + 1)) as nat);
    add_dec(&mut l, a99, Ghost(a3));
    let ghost a4 = a3 + dec(a99 as nat);
    add_str(&mut l, "s", Ghost(a4));
    assert(a4 + "s".spec_bytes() =~= row_title_text(*t, now, selected));
    l
}

/// `twice` / 2 rounded to the nearest integer, a tie to the even one, as
/// formatting a float without decimals does.
pub open spec fn round_half_even(twice: nat) -> nat {
    if twice % 2 == 0 {
        twice / 2
    } else if (twice / 2) % 2 == 0 {
        twice / 2
    } else {
        twice / 2 + 1
    }
}

/// `v` / 2 rounded to a whole number; a negative value keeps its sign even
/// when it rounds to zero.
pub open spec fn halves_whole_text(v: int) -> Seq<u8> {
    let a = if v < 0 {
        -v
    } else {
        v
    };
    minus(v) + dec(round_half_even(a as nat))
}

/// `v` / 4 rounded to one decimal.
pub open spec fn quarters_tenth_text(v: nat) -> Seq<u8> {
    let t = round_half_even(5 * v);
    dec(t / 10) + seq![0x2eu8, (0x30 + t % 10) as u8]
}

/// The status letter as a byte.
pub open spec fn status_byte(t: Track) -> u8 {
    match location_status(t) {
        None => 0x2d,
        Some(0) => 0x55,
        Some(1) => 0x47,
        Some(2) => 0x41,
        Some(3) => 0x45,
        Some(_) => 0x46,
    }
}

/// The second line of a list row: status letter, geodetic altitude in
/// whole metres, horizontal speed to a tenth, heading in three digits, and
/// the average RSSI.
pub open spec fn row_info_text(t: Track) -> Seq<u8> {
    let alt = loc_alt(t.location, 0);
    let h = match t.location {
        Some(l) => spec_speed_h_quarter(l),
        None => None,
    };
    let d = match t.location {
        Some(l) => spec_track_deg(l),
        None => None,
    };
    seq![status_byte(t)] + " ALT ".spec_bytes() + match alt {
        Some(x) => halves_whole_text(x as int),
        None => "---".spec_bytes(),
    } + " SPD ".spec_bytes() + match h {
        Some(q) => quarters_tenth_text(q as nat),
        None => "---".spec_bytes(),
    } + match d {
        Some(x) => " HDG ".spec_bytes() + pad(x as nat, 3),
        None => " HDG ---".spec_bytes(),
    } + " ".spec_bytes() + signed_dec(trunc16(t.rssi_avg_x16)) + "dBm".spec_bytes()
}

fn round_even(twice: u64) -> (r: u64)
    ensures
        r == round_half_even(twice as nat),
{
    let q = twice / 2;
    if twice % 2 == 0 || q % 2 == 0 {
        q
    } else {
        q + 1
    }
}

/// The second line of the list row of track `t`.
pub fn row_info_line(t: &Track) -> (l: Line)
    ensures
        l@ == appended(seq![], row_info_text(*t)),
{
    let letter: u8 = match t.location {
        None => 0x2d,
        Some(x) => if x.status == 0 {
            0x55
        } else if x.status == 1 {
            0x47
        } else if x.status == 2 {
            0x41
        } else if x.status == 3 {
            0x45
        } else {
            0x46
        },
    };
    let alt = loc_half(t.location, 0);
    let (h, d) = match t.location {
        Some(x) => (x.speed_h_quarter_mps(), x.track_deg()),
        None => (None, None),
    };
    let mut l = start();
    let ghost a0 = Seq::<u8>::empty();
    let lb = [letter];
    assert(lb@ =~= seq![letter]);
    add_bytes(&mut l, lb.as_slice(), Ghost(a0));
    let ghost a1 = a0 + seq![status_byte(*t)];
    add_str(&mut l, " ALT ", Ghost(a1));
    let ghost a2 = a1 + " ALT ".spec_bytes();
    let ghost ap = match alt {
        Some(x) => halves_whole_text(x as int),
        None => "---".spec_bytes(),
    };
    match alt {
        Some(x) => {
            let a: u64 = if x < 0 {
                (-(x as i64)) as u64
            } else {
                x as u64
            };
            let r = round_even(a);
            if x < 0 {
                let m = [0x2du8];
                assert(m@ =~= seq![0x2du8]);
                add_bytes(&mut l, m.as_slice(), Ghost(a2));
                add_dec(&mut l, r, Ghost(a2 + seq![0x2du8]));
                assert(a2 + seq![0x2du8] + dec(r as nat) =~= a2 + ap);
            } else {
                add_dec(&mut l, r, Ghost(a2));
                assert(a2 + dec(r as nat) =~= a2 + ap);
            }
        },
        None => add_str(&mut l, "---", Ghost(a2)),
    }
    let ghost a3 = a2 + ap;
    add_str(&mut l, " SPD ", Ghost(a3));
    let ghost a4 = a3 + " SPD ".spec_bytes();
    let ghost hp = match h {
        Some(q) => quarters_tenth_text(q as nat),
        None => "---".spec_bytes(),
    };
    match h {
        Some(q) => {
            let tn = round_even(5 * (q as u64));
            add_dec(&mut l, tn / 10, Ghost(a4));
            let pt = [0x2eu8, 0x30 + (tn % 10) as u8];
            add_bytes(&mut l, pt.as_slice(), Ghost(a4 + dec((tn / 10) as nat)));
            assert(pt@ =~= seq![0x2eu8, (0x30 + tn % 10) as u8]);
            assert(a4 + dec((tn / 10) as nat) + pt@ =~= a4 + hp);
        },
        None => add_str(&mut l, "---", Ghost(a4)),
    }
    let ghost a5 = a4 + hp;
    let ghost dp = match d {
        Some(x) => " HDG ".spec_bytes() + pad(x as nat, 3),
        None => " HDG ---".spec_bytes(),
    };
    match d {
        Some(x) => {
            add_str(&mut l, " HDG ", Ghost(a5));
            push_pad(&mut l, x as u64, 3);
            proof {
                lemma_appended_concat(seq![], a5 + " HDG ".spec_bytes(), pad(x as nat, 3));
                assert(a5 + " HDG ".spec_bytes() + pad(x as nat, 3) =~= a5 + dp);
            }
        },
        None => add_str(&mut l, " HDG ---", Ghost(a5)),
    }
    let ghost a6 = a5 + dp;
    add_str(&mut l, " ", Ghost(a6));
    let ghost a7 = a6 + " ".spec_bytes();
    let v = t.rssi_avg_x16 as i32;
    let avg: i32 = if v >= 0 {
        v / 16
    } else {
        -((-v) / 16)
    };
    add_signed(&mut l, avg as i64, Ghost(a7));
    let ghost a8 = a7 + signed_dec(trunc16(t.rssi_avg_x16));
    add_str(&mut l, "dBm", Ghost(a8));
    assert(a8 + "dBm".spec_bytes() =~= row_info_text(*t));
    l
}

/// The status name on detail line 3 agrees with the status letter and
/// colour of the list: `U` is UNDECLARED, `G` GROUND, `A` AIRBORNE, `E`
/// (drawn red) EMERGENCY, a yellow track RID-FAIL, and a track without a
/// position `---`.
pub proof fn law_status_name_matches_letter(t: Track)
    ensures
        ({
            let name = status_name(location_status(t));
            &&& status_char(t) == 'U' ==> name == "UNDECLARED".spec_bytes()
            &&& status_char(t) == 'G' ==> name == "GROUND".spec_bytes()
            &&& status_char(t) == 'A' ==> name == "AIRBORNE".spec_bytes()
            &&& status_char(t) == 'E' ==> name == "EMERGENCY".spec_bytes()
            &&& status_colour(t) == Color::Red ==> name == "EMERGENCY".spec_bytes()
            &&& status_colour(t) == Color::Yellow ==> name == "RID-FAIL".spec_bytes()
            &&& status_char(t) == '-' ==> name == "---".spec_bytes()
        }),
{
}

} // verus!
