//! What the receiver's display shows: text lines, the labels and status of
//! tracks, and which track is selected as the user steps through them.

use vstd::prelude::*;
use vstd::string::StringSliceAdditionalSpecFns;
use vstd::utf8::{
    codepoint_width_1, decode_first_codepoint, pop_first_scalar, valid_first_scalar, valid_utf8,
};

use crate::message::BasicId;
use crate::tracks::{first_where, lemma_first_where, mac_eq, Track};
use crate::units::{str_from_utf8, text_bytes};

verus! {

/// What the display is asked to do.
#[derive(Clone, Copy, Debug, PartialEq, Eq)]
pub enum UiEvt {
    NextTrack,
    ToggleView,
    ClearTracks,
    Redraw,
}

/// Bytes a display line holds.
pub const LINE_CAP: usize = 64;

/// How a byte is shown: printable ASCII as itself, anything else as `?`.
pub open spec fn printable(b: u8) -> u8 {
    if 0x20 <= b < 0x7f {
        b
    } else {
        0x3f
    }
}

/// `cur` followed by the shown form of `more`, cut at `LINE_CAP` bytes.
pub open spec fn appended(cur: Seq<u8>, more: Seq<u8>) -> Seq<u8> {
    let all = cur + more.map_values(|b: u8| printable(b));
    if all.len() <= LINE_CAP {
        all
    } else {
        all.take(LINE_CAP as int)
    }
}

/// Appending in two steps is appending the concatenation.
pub proof fn lemma_appended_concat(cur: Seq<u8>, x: Seq<u8>, y: Seq<u8>)
    ensures
        appended(appended(cur, x), y) == appended(cur, x + y),
{
    let f = |b: u8| printable(b);
    let sx = x.map_values(f);
    let sy = y.map_values(f);
    assert((x + y).map_values(f) =~= sx + sy);
    assert(cur + (sx + sy) =~= (cur + sx) + sy);
    if (cur + sx).len() > LINE_CAP {
        assert(((cur + sx).take(LINE_CAP as int) + sy).take(LINE_CAP as int) =~= ((cur + sx)
            + sy).take(LINE_CAP as int));
    }
}

proof fn lemma_ascii_valid_utf8(s: Seq<u8>)
    requires
        forall|i: int| 0 <= i < s.len() ==> s[i] < 0x80,
    ensures
        valid_utf8(s),
    decreases s.len(),
{
    if s.len() > 0 {
        let b = s[0];
        assert(b < 0x80);
        assert((b & 0x7f) as u32 <= 0x7f) by (bit_vector);
        assert(decode_first_codepoint(s) == codepoint_width_1(b));
        assert(valid_first_scalar(s));
        let rest = pop_first_scalar(s);
        assert(rest =~= s.subrange(1, s.len() as int));
        lemma_ascii_valid_utf8(rest);
    }
}

/// One line of display text: at most `LINE_CAP` printable ASCII bytes; what
/// does not fit is dropped.
#[derive(Clone, Copy)]
pub struct Line {
    buf: [u8; LINE_CAP],
    len: usize,
}

impl View for Line {
    type V = Seq<u8>;

    closed spec fn view(&self) -> Seq<u8> {
        self.buf@.take(self.len as int)
    }
}

impl Line {
    #[verifier::type_invariant]
    spec fn inv(self) -> bool {
        &&& self.len <= LINE_CAP
        &&& forall|i: int| 0 <= i < self.len ==> 0x20 <= #[trigger] self.buf@[i] < 0x7f
    }

    pub fn new() -> (l: Line)
        ensures
            l@ == Seq::<u8>::empty(),
    {
        Line { buf: [0u8; LINE_CAP], len: 0 }
    }

    /// Appends one byte as shown, if there is room.
    pub(crate) fn push_byte(&mut self, b: u8)
        ensures
            final(self)@ == appended(old(self)@, seq![b]),
    {
        proof {
            use_type_invariant(&*self);
        }
        let ghost start = self@;
        let ghost shown = seq![b].map_values(|c: u8| printable(c));
        assert(shown =~= seq![printable(b)]);
        if self.len < LINE_CAP {
            let c = if 0x20 <= b && b < 0x7f {
                b
            } else {
                0x3f
            };
            let ghost before = self.buf@;
            let len = self.len;
            self.buf[len] = c;
            self.len = len + 1;
            assert(self.buf@.take(len + 1) =~= before.take(len as int).push(c));
            assert(start + shown =~= before.take(len as int).push(c));
        } else {
            assert((start + shown).take(LINE_CAP as int) =~= start);
        }
    }

    /// Appends `bytes` as shown, while there is room.
    pub(crate) fn push_bytes(&mut self, bytes: &[u8])
        ensures
            final(self)@ == appended(old(self)@, bytes@),
    {
        proof {
            use_type_invariant(&*self);
        }
        let ghost start = self@;
        let ghost shown = bytes@.map_values(|b: u8| printable(b));
        let n = bytes.len();
        let mut buf = self.buf;
        let mut len = self.len;
        let mut i: usize = 0;
        while i < n && len < LINE_CAP
            invariant
                n == bytes@.len(),
                shown == bytes@.map_values(|b: u8| printable(b)),
                i <= n,
                len <= LINE_CAP,
                len == start.len() + i,
                buf@.take(len as int) == start + shown.take(i as int),
                forall|k: int| 0 <= k < len ==> 0x20 <= #[trigger] buf@[k] < 0x7f,
            decreases n - i,
        {
            let b = bytes[i];
            let c = if 0x20 <= b && b < 0x7f {
                b
            } else {
                0x3f
            };
            assert(shown[i as int] == c);
            let ghost before = buf@;
            buf[len] = c;
            assert(buf@.take(len + 1) =~= before.take(len as int).push(c));
            assert(shown.take(i + 1) =~= shown.take(i as int).push(c));
            assert((start + shown.take(i as int)).push(c) =~= start + shown.take(i + 1));
            len = len + 1;
            i = i + 1;
        }
        proof {
            let all = start + shown;
            if i == n {
                assert(shown.take(i as int) =~= shown);
                assert(all.len() <= LINE_CAP);
            } else {
                assert(len == LINE_CAP);
                assert(all.take(LINE_CAP as int) =~= start + shown.take(i as int));
            }
        }
        self.buf = buf;
        self.len = len;
    }

    /// Appends `s`, each byte shown as itself if printable ASCII and as `?`
    /// otherwise, until the line is full.
    pub fn write_str(&mut self, s: &str)
        ensures
            final(self)@ == appended(old(self)@, s.spec_bytes()),
    {
        self.push_bytes(s.as_bytes());
    }

    /// The line as text; it is always valid, being printable ASCII.
    pub fn as_str(&self) -> (s: &str)
        ensures
            s.spec_bytes() == self@,
    {
        proof {
            use_type_invariant(self);
        }
        let b = vstd::slice::slice_subrange(self.buf.as_slice(), 0, self.len);
        proof {
            lemma_ascii_valid_utf8(b@);
        }
        match str_from_utf8(b) {
            Some(s) => s,
            None => "",
        }
    }
}

/// A lower-case hexadecimal digit.
pub open spec fn hex_digit(n: int) -> u8 {
    if n < 10 {
        (0x30 + n) as u8
    } else {
        (0x61 + n - 10) as u8
    }
}

/// A MAC address as `aa:bb:cc:dd:ee:ff`.
pub open spec fn mac_text(m: Seq<u8>) -> Seq<u8> {
    Seq::new(
        17,
        |i: int|
            if i % 3 == 0 {
                hex_digit((m[i / 3] / 16) as int)
            } else if i % 3 == 1 {
                hex_digit((m[i / 3] % 16) as int)
            } else {
                0x3a
            },
    )
}

fn hex(n: u8) -> (c: u8)
    requires
        n < 16,
    ensures
        c == hex_digit(n as int),
{
    if n < 10 {
        0x30 + n
    } else {
        0x61 + n - 10
    }
}

/// The text of MAC address `m`.
pub fn mac(m: &[u8; 6]) -> (t: [u8; 17])
    ensures
        t@ == mac_text(m@),
{
    let mut t = [0x3au8; 17];
    let mut k: usize = 0;
    while k < 6
        invariant
            k <= 6,
            forall|i: int| 0 <= i < 3 * k && i < 17 ==> #[trigger] t@[i] == mac_text(m@)[i],
            forall|i: int| 3 * k <= i < 17 ==> #[trigger] t@[i] == 0x3a,
        decreases 6 - k,
    {
        let b = m[k];
        t[3 * k] = hex(b / 16);
        t[3 * k + 1] = hex(b % 16);
        proof {
            let kk = k as int;
            assert((3 * kk) / 3 == kk && (3 * kk) % 3 == 0) by (nonlinear_arith);
            assert((3 * kk + 1) / 3 == kk && (3 * kk + 1) % 3 == 1) by (nonlinear_arith);
            assert((3 * kk + 2) / 3 == kk && (3 * kk + 2) % 3 == 2) by (nonlinear_arith);
            assert forall|i: int| 0 <= i < 3 * k + 3 && i < 17 implies #[trigger] t@[i]
                == mac_text(m@)[i] by {
                if i >= 3 * kk {
                    assert(i == 3 * kk || i == 3 * kk + 1 || i == 3 * kk + 2);
                }
            }
        }
        k = k + 1;
    }
    assert(t@ =~= mac_text(m@));
    t
}

/// The first Basic ID a track has: the serial number (slot 0) before any
/// other kind (slot 1).
pub open spec fn first_basic_id(ids: [Option<BasicId>; 2]) -> Option<BasicId> {
    if ids@[0] is Some {
        ids@[0]
    } else {
        ids@[1]
    }
}

/// What names a track in the list: its first Basic ID, else its MAC.
pub open spec fn label_text(t: Track) -> Seq<u8> {
    match first_basic_id(t.basic_id) {
        Some(id) => appended(seq![], text_bytes(id.uas_id@)),
        None => mac_text(t.mac@),
    }
}

/// The label of track `t`.
pub fn label(t: &Track) -> (l: Line)
    ensures
        l@ == label_text(*t),
{
    let mut b = Line::new();
    let id = match t.basic_id[0] {
        Some(id) => Some(id),
        None => t.basic_id[1],
    };
    match id {
        Some(id) => b.write_str(id.as_str()),
        None => {
            let m = mac(&t.mac);
            b.push_bytes(m.as_slice());
            assert(mac_text(t.mac@).map_values(|c: u8| printable(c)) =~= mac_text(t.mac@));
            assert(Seq::<u8>::empty() + mac_text(t.mac@) =~= mac_text(t.mac@));
        },
    }
    b
}

/// Whole seconds from `t_us` to `now_us`, 0 if `t_us` is later.
pub fn secs(now_us: u64, t_us: u64) -> (s: u64)
    ensures
        s == (if now_us >= t_us {
            (now_us - t_us) / 1_000_000
        } else {
            0
        }),
{
    now_us.saturating_sub(t_us) / 1_000_000
}

/// The operational status of a track's latest location, if it has one.
pub open spec fn location_status(t: Track) -> Option<u8> {
    match t.location {
        Some(l) => Some(l.status),
        None => None,
    }
}

/// The status letter of track `t`.
pub open spec fn status_char(t: Track) -> char {
    match location_status(t) {
        None => '-',
        Some(0) => 'U',
        Some(1) => 'G',
        Some(2) => 'A',
        Some(3) => 'E',
        Some(_) => 'F',
    }
}

/// One letter for the status: `-` with no location, then Undeclared,
/// Ground, Airborne, Emergency, and `F` for any other (remote ID failure).
pub fn status_letter(t: &Track) -> (c: char)
    ensures
        c == status_char(*t),
{
    match t.location {
        None => '-',
        Some(l) => match l.status {
            0 => 'U',
            1 => 'G',
            2 => 'A',
            3 => 'E',
            _ => 'F',
        },
    }
}

/// The colour a list entry is drawn in.
#[derive(Clone, Copy, Debug, PartialEq, Eq)]
pub enum Color {
    White,
    Red,
    Yellow,
}

/// The colour of track `t` in the list.
pub open spec fn status_colour(t: Track) -> Color {
    match location_status(t) {
        Some(3) => Color::Red,
        Some(4) => Color::Yellow,
        _ => Color::White,
    }
}

/// Red for an emergency, yellow for a remote ID failure, white otherwise.
pub fn status_color(t: &Track) -> (c: Color)
    ensures
        c == status_colour(*t),
{
    match t.location {
        Some(l) => if l.status == 3 {
            Color::Red
        } else if l.status == 4 {
            Color::Yellow
        } else {
            Color::White
        },
        None => Color::White,
    }
}

// ---------------------------------------------------------------------------
// Which track is selected, and what the screen shows
// ---------------------------------------------------------------------------

/// Row `i` shows the track with MAC `m`.
pub open spec fn holds(rows: Seq<Option<[u8; 6]>>, i: int, m: [u8; 6]) -> bool {
    rows[i] matches Some(r) && r@ == m@
}

/// The first row that shows `m`, or the number of rows if none does.
pub open spec fn row_of(rows: Seq<Option<[u8; 6]>>, m: [u8; 6]) -> int {
    first_where(rows.len() as int, |i: int| holds(rows, i, m))
}

/// The first row after row `j` that shows a track, or the number of rows.
pub open spec fn next_row(rows: Seq<Option<[u8; 6]>>, j: int) -> int {
    j + 1 + first_where(rows.len() - j - 1, |i: int| rows[j + 1 + i] is Some)
}

/// The row of the selected track, if a row shows it.
pub open spec fn selected_row(rows: Seq<Option<[u8; 6]>>, sel: Option<[u8; 6]>) -> Option<int> {
    match sel {
        Some(m) => if row_of(rows, m) < rows.len() {
            Some(row_of(rows, m))
        } else {
            None
        },
        None => None,
    }
}

/// Some row shows a track.
pub open spec fn any_shown(rows: Seq<Option<[u8; 6]>>) -> bool {
    exists|i: int| 0 <= i < rows.len() && #[trigger] rows[i] is Some
}

/// What the screen shows below its header.
#[derive(Clone, Copy, Debug, PartialEq, Eq)]
pub enum Screen {
    /// The detail lines of the track in this row.
    Detail(usize),
    /// The list of rows.
    List,
    /// The line that says nothing is received.
    Empty,
}

/// The state of the display between passes.
#[derive(Clone, Copy, Debug, PartialEq, Eq)]
pub struct UiState {
    /// The detail view is on.
    pub detail: bool,
    /// The MAC of the selected track.
    pub selected: Option<[u8; 6]>,
    /// The previous pass showed no track.
    pub was_empty: bool,
    /// The whole screen must be cleared and drawn again.
    pub dirty: bool,
}

/// What one pass draws: whether it first clears the screen, and what it
/// shows.
#[derive(Clone, Copy, Debug, PartialEq, Eq)]
pub struct Pass {
    pub repaint: bool,
    pub screen: Screen,
}

/// Row `i` of `rows`.
fn row(rows: &[Option<[u8; 6]>], i: usize) -> (r: Option<[u8; 6]>)
    requires
        i < rows@.len(),
    ensures
        r == rows@[i as int],
{
    rows[i]
}

/// The first row that shows `m`.
fn find_row(rows: &[Option<[u8; 6]>], m: &[u8; 6]) -> (j: usize)
    ensures
        j == row_of(rows@, *m),
{
    let n = rows.len();
    let mut j: usize = 0;
    loop
        invariant
            n == rows@.len(),
            j <= n,
            forall|k: int| 0 <= k < j ==> !#[trigger] holds(rows@, k, *m),
        ensures
            j <= n,
            forall|k: int| 0 <= k < j ==> !#[trigger] holds(rows@, k, *m),
            j < n ==> holds(rows@, j as int, *m),
        decreases n - j,
    {
        if j >= n {
            break;
        }
        let found = match rows[j] {
            Some(r) => mac_eq(&r, m),
            None => false,
        };
        if found {
            break;
        }
        j = j + 1;
    }
    proof {
        lemma_first_where(n as int, |i: int| holds(rows@, i, *m), j as int);
    }
    j
}

/// The first row after row `j` that shows a track.
fn find_next(rows: &[Option<[u8; 6]>], j: usize) -> (k: usize)
    requires
        j < rows@.len(),
    ensures
        k == next_row(rows@, j as int),
{
    let n = rows.len();
    let mut k: usize = j + 1;
    while k < n && rows[k].is_none()
        invariant
            n == rows@.len(),
            j < k <= n,
            forall|i: int| j < i < k ==> #[trigger] rows@[i] is None,
        decreases n - k,
    {
        k = k + 1;
    }
    proof {
        let p = |i: int| rows@[j + 1 + i] is Some;
        assert forall|i: int| 0 <= i < k - j - 1 implies !#[trigger] p(i) by {
            assert(rows@[j + 1 + i] is None);
        }
        lemma_first_where(n - j - 1, p, k - j - 1);
    }
    k
}

impl UiState {
    /// The state at boot: list view, nothing selected, the first pass clears
    /// the screen.
    pub fn new() -> (s: UiState)
        ensures
            s == (UiState { detail: false, selected: None, was_empty: false, dirty: true }),
    {
        UiState { detail: false, selected: None, was_empty: false, dirty: true }
    }

    /// Starts a pass over the rows on screen: a selection that no row shows
    /// moves to the first row; the screen is cleared when it is dirty or
    /// when it goes from empty to not or back; the detail view shows the
    /// selected track, the list view any rows, and otherwise the screen says
    /// nothing is received.
    pub fn begin_pass(&mut self, rows: &[Option<[u8; 6]>]) -> (p: Pass)
        requires
            rows@.len() > 0,
        ensures
            final(self).detail == old(self).detail,
            final(self).selected == (if selected_row(rows@, old(self).selected) is Some {
                old(self).selected
            } else {
                rows@[0]
            }),
            p.repaint == (old(self).dirty || old(self).was_empty != !any_shown(rows@)),
            final(self).dirty == (old(self).dirty && !p.repaint),
            final(self).was_empty == !any_shown(rows@),
            p.screen == (if old(self).detail && selected_row(rows@, final(self).selected) is Some {
                Screen::Detail(selected_row(rows@, final(self).selected)->0 as usize)
            } else if !old(self).detail && any_shown(rows@) {
                Screen::List
            } else {
                Screen::Empty
            }),
    {
        let n = rows.len();
        let keep = match self.selected {
            Some(m) => find_row(rows, &m) < n,
            None => false,
        };
        if !keep {
            self.selected = row(rows, 0);
        }
        let mut shown = false;
        let mut i: usize = 0;
        while i < n
            invariant
                n == rows@.len(),
                i <= n,
                shown == (exists|k: int| 0 <= k < i && #[trigger] rows@[k] is Some),
            decreases n - i,
        {
            if rows[i].is_some() {
                shown = true;
            }
            i = i + 1;
        }
        let repaint = self.dirty || self.was_empty != !shown;
        if repaint {
            self.dirty = false;
        }
        self.was_empty = !shown;
        let sel = match self.selected {
            Some(m) => {
                let j = find_row(rows, &m);
                if j < n {
                    Some(j)
                } else {
                    None
                }
            },
            None => None,
        };
        let screen = match sel {
            Some(j) if self.detail => Screen::Detail(j),
            _ => if !self.detail && shown {
                Screen::List
            } else {
                Screen::Empty
            },
        };
        Pass { repaint, screen }
    }

    /// Handles a button event, or `None` when the pass timed out. Next track
    /// selects the track in the next row that shows one after the selected
    /// track, or else the first row; toggling the view and clearing the
    /// tracks dirty the screen. Returns whether the tracks are to be
    /// cleared.
    pub fn on_event(&mut self, evt: Option<UiEvt>, rows: &[Option<[u8; 6]>]) -> (clear: bool)
        requires
            rows@.len() > 0,
        ensures
            clear == (evt == Some(UiEvt::ClearTracks)),
            evt == Some(UiEvt::NextTrack) ==> *final(self) == (UiState {
                selected: match selected_row(rows@, old(self).selected) {
                    Some(j) => if next_row(rows@, j) < rows@.len() {
                        rows@[next_row(rows@, j)]
                    } else {
                        rows@[0]
                    },
                    None => rows@[0],
                },
                ..*old(self)
            }),
            evt == Some(UiEvt::ToggleView) ==> *final(self) == (UiState {
                detail: !old(self).detail,
                dirty: true,
                ..*old(self)
            }),
            evt == Some(UiEvt::ClearTracks) ==> *final(self) == (UiState {
                dirty: true,
                ..*old(self)
            }),
            (evt == Some(UiEvt::Redraw) || evt is None) ==> *final(self) == *old(self),
    {
        match evt {
            Some(UiEvt::NextTrack) => {
                let n = rows.len();
                let next = match self.selected {
                    Some(m) => {
                        let j = find_row(rows, &m);
                        if j < n {
                            let k = find_next(rows, j);
                            if k < n {
                                Some(row(rows, k))
                            } else {
                                None
                            }
                        } else {
                            None
                        }
                    },
                    None => None,
                };
                self.selected = match next {
                    Some(r) => r,
                    None => row(rows, 0),
                };
                false
            },
            Some(UiEvt::ToggleView) => {
                self.detail = !self.detail;
                self.dirty = true;
                false
            },
            Some(UiEvt::ClearTracks) => {
                self.dirty = true;
                true
            },
            _ => false,
        }
    }
}

/// The MACs of the rows that show a track, in row order.
pub open spec fn row_macs(rows: Seq<Option<[u8; 6]>>) -> Seq<[u8; 6]>
    decreases rows.len(),
{
    if rows.len() == 0 {
        seq![]
    } else {
        let r = row_macs(rows.drop_last());
        match rows.last() {
            Some(m) => r.push(m),
            None => r,
        }
    }
}

/// How many rows before row `r` show a track: the place of row `r`'s MAC
/// in `row_macs`.
pub open spec fn macs_before(rows: Seq<Option<[u8; 6]>>, r: int) -> int {
    row_macs(rows.take(r)).len() as int
}

proof fn lemma_macs_step(rows: Seq<Option<[u8; 6]>>, r: int)
    requires
        0 <= r < rows.len(),
    ensures
        macs_before(rows, r + 1) == macs_before(rows, r) + if rows[r] is Some {
            1int
        } else {
            0
        },
{
    assert(rows.take(r + 1).drop_last() =~= rows.take(r));
}

proof fn lemma_macs_monotone(rows: Seq<Option<[u8; 6]>>, a: int, b: int)
    requires
        0 <= a <= b <= rows.len(),
    ensures
        macs_before(rows, a) <= macs_before(rows, b),
        a < b && rows[a] is Some ==> macs_before(rows, a) + 1 <= macs_before(rows, b),
    decreases b - a,
{
    if a < b {
        lemma_macs_step(rows, a);
        lemma_macs_monotone(rows, a + 1, b);
    }
}

proof fn lemma_macs_all(rows: Seq<Option<[u8; 6]>>)
    ensures
        macs_before(rows, rows.len() as int) == row_macs(rows).len(),
{
    assert(rows.take(rows.len() as int) =~= rows);
}

/// Row `r`, when it shows a track, holds the `macs_before(r)`-th MAC.
proof fn lemma_macs_at(rows: Seq<Option<[u8; 6]>>, r: int)
    requires
        0 <= r < rows.len(),
        rows[r] is Some,
    ensures
        macs_before(rows, r) < row_macs(rows).len(),
        row_macs(rows)[macs_before(rows, r)] == rows[r]->0,
    decreases rows.len(),
{
    let d = rows.drop_last();
    assert(d.take(r) =~= rows.take(r)) by {
        if r < rows.len() - 1 {
        }
    }
    if r < rows.len() - 1 {
        assert(d[r] == rows[r]);
        lemma_macs_at(d, r);
        assert(macs_before(d, r) == macs_before(rows, r));
    } else {
        assert(rows.take(r) =~= d);
    }
}

/// Every MAC of `row_macs` comes from a row that shows a track.
proof fn lemma_macs_from(rows: Seq<Option<[u8; 6]>>, i: int) -> (r: int)
    requires
        0 <= i < row_macs(rows).len(),
    ensures
        0 <= r < rows.len(),
        rows[r] is Some,
        macs_before(rows, r) == i,
    decreases rows.len(),
{
    let d = rows.drop_last();
    let n = rows.len() - 1;
    if i < row_macs(d).len() {
        let r = lemma_macs_from(d, i);
        assert(d.take(r) =~= rows.take(r));
        r
    } else {
        assert(rows.take(n) =~= d);
        n
    }
}

/// Next track steps through the MACs of the rows that show a track: from
/// the `i`-th (the first with the selected MAC) to the `i + 1`-th, and from
/// the last back to the first row.
pub proof fn law_next_track_steps_through_macs(rows: Seq<Option<[u8; 6]>>, m: [u8; 6], i: int)
    requires
        0 <= i < row_macs(rows).len(),
        row_macs(rows)[i]@ == m@,
        forall|k: int| 0 <= k < i ==> (#[trigger] row_macs(rows)[k])@ != m@,
    ensures
        selected_row(rows, Some(m)) is Some,
        ({
            let j = selected_row(rows, Some(m))->0;
            if i + 1 < row_macs(rows).len() {
                next_row(rows, j) < rows.len() && rows[next_row(rows, j)] == Some(
                    row_macs(rows)[i + 1],
                )
            } else {
                next_row(rows, j) >= rows.len()
            }
        }),
{
    let n = rows.len() as int;
    let macs = row_macs(rows);
    lemma_macs_all(rows);
    let r0 = lemma_macs_from(rows, i);
    lemma_macs_at(rows, r0);
    let p = |k: int| holds(rows, k, m);
    crate::tracks::lemma_first_where_props(n, p);
    assert(p(r0));
    let j = row_of(rows, m);
    assert(j <= r0);
    assert(holds(rows, j, m));
    lemma_macs_at(rows, j);
    lemma_macs_monotone(rows, j, r0);
    assert(macs_before(rows, j) == i) by {
        let ij = macs_before(rows, j);
        if ij < i {
            assert(macs[ij]@ != m@);
        }
    }
    let q = |k: int| rows[j + 1 + k] is Some;
    crate::tracks::lemma_first_where_props(n - j - 1, q);
    let k = next_row(rows, j);
    if i + 1 < macs.len() {
        let r1 = lemma_macs_from(rows, i + 1);
        lemma_macs_at(rows, r1);
        assert(r1 > j) by {
            if r1 <= j {
                lemma_macs_monotone(rows, r1, j);
            }
        }
        assert(q(r1 - j - 1));
        assert(k <= r1);
        assert(rows[k] is Some) by {
            assert(q(k - j - 1));
        }
        lemma_macs_monotone(rows, j, k);
        lemma_macs_monotone(rows, k, r1);
        lemma_macs_at(rows, k);
        assert(macs_before(rows, k) == i + 1);
    } else {
        if k < n {
            assert(q(k - j - 1));
            lemma_macs_monotone(rows, j, k);
            lemma_macs_at(rows, k);
        }
    }
}

/// A selection stays only while some row shows its MAC.
pub proof fn law_selection_kept_iff_shown(rows: Seq<Option<[u8; 6]>>, m: [u8; 6])
    ensures
        selected_row(rows, Some(m)) is Some <==> exists|i: int|
            0 <= i < row_macs(rows).len() && (#[trigger] row_macs(rows)[i])@ == m@,
{
    let n = rows.len() as int;
    let p = |k: int| holds(rows, k, m);
    crate::tracks::lemma_first_where_props(n, p);
    if exists|i: int| 0 <= i < row_macs(rows).len() && (#[trigger] row_macs(rows)[i])@ == m@ {
        let i = choose|i: int| 0 <= i < row_macs(rows).len() && (#[trigger] row_macs(rows)[i])@
            == m@;
        let r = lemma_macs_from(rows, i);
        lemma_macs_at(rows, r);
        assert(p(r));
    }
    if selected_row(rows, Some(m)) is Some {
        let j = row_of(rows, m);
        assert(p(j));
        lemma_macs_at(rows, j);
        assert(row_macs(rows)[macs_before(rows, j)]@ == m@);
    }
}

} // verus!
