//! The two buttons of the receiver: debouncing, short and long presses, and
//! what each press asks of the radio and the display.

use vstd::prelude::*;

use crate::radio::RadioCmd;
use crate::ui::UiEvt;

verus! {

/// Milliseconds between two samples of a button.
pub const POLL_MS: u32 = 10;

/// A press held this long is a long press.
pub const LONG_MS: u32 = 800;

#[derive(Clone, Copy, Debug, PartialEq, Eq)]
pub enum Press {
    Short,
    Long,
}

/// The state of one debounced button.
pub struct Button {
    pressed: bool,
    candidate: bool,
    same: u8,
    held_ms: u32,
    long_sent: bool,
}

/// The state of a button, as the specifications see it.
#[derive(Clone, Copy, Debug, PartialEq, Eq)]
pub struct ButtonState {
    /// The debounced level.
    pub pressed: bool,
    /// The level of the latest samples.
    pub candidate: bool,
    /// How many samples in a row had the candidate level.
    pub same: u8,
    /// How long the current press has been held.
    pub held_ms: u32,
    /// The current press has already been reported as long.
    pub long_sent: bool,
}

impl View for Button {
    type V = ButtonState;

    closed spec fn view(&self) -> ButtonState {
        ButtonState {
            pressed: self.pressed,
            candidate: self.candidate,
            same: self.same,
            held_ms: self.held_ms,
            long_sent: self.long_sent,
        }
    }
}

/// One 10 ms sample: three identical samples in a row move the debounced
/// level; a release reports a short press unless it was already long; a
/// press held for `LONG_MS` is reported as long, once.
pub open spec fn spec_poll(s: ButtonState, raw_pressed: bool) -> (ButtonState, Option<Press>) {
    let same = if raw_pressed == s.candidate {
        if s.same < 255 {
            (s.same + 1) as u8
        } else {
            255u8
        }
    } else {
        1u8
    };
    let s1 = ButtonState { candidate: raw_pressed, same, ..s };
    if same >= 3 && raw_pressed != s.pressed && !raw_pressed && !s.long_sent {
        (ButtonState { pressed: false, ..s1 }, Some(Press::Short))
    } else {
        let s2 = if same >= 3 && raw_pressed != s.pressed {
            if raw_pressed {
                ButtonState { pressed: true, held_ms: 0, long_sent: false, ..s1 }
            } else {
                ButtonState { pressed: false, ..s1 }
            }
        } else {
            s1
        };
        if s2.pressed && !s2.long_sent {
            let held = (s2.held_ms + POLL_MS) as u32;
            if held >= LONG_MS {
                (ButtonState { held_ms: held, long_sent: true, ..s2 }, Some(Press::Long))
            } else {
                (ButtonState { held_ms: held, ..s2 }, None)
            }
        } else {
            (s2, None)
        }
    }
}

impl Button {
    #[verifier::type_invariant]
    spec fn inv(self) -> bool {
        self.pressed && !self.long_sent ==> self.held_ms < LONG_MS
    }

    /// A released button.
    pub fn new() -> (b: Button)
        ensures
            b@ == (ButtonState {
                pressed: false,
                candidate: false,
                same: 0,
                held_ms: 0,
                long_sent: false,
            }),
    {
        Button { pressed: false, candidate: false, same: 0, held_ms: 0, long_sent: false }
    }

    /// Feeds one sample (`true` while the button is down).
    pub fn poll(&mut self, raw_pressed: bool) -> (r: Option<Press>)
        ensures
            (final(self)@, r) == spec_poll(old(self)@, raw_pressed),
    {
        proof {
            use_type_invariant(&*self);
        }
        let mut pressed = self.pressed;
        let mut candidate = self.candidate;
        let mut same = self.same;
        let mut held_ms = self.held_ms;
        let mut long_sent = self.long_sent;
        let mut r = None;
        if raw_pressed == candidate {
            same = if same < 255 {
                same + 1
            } else {
                255
            };
        } else {
            candidate = raw_pressed;
            same = 1;
        }
        // Three identical 10 ms samples debounce the edge.
        let mut released = false;
        if same >= 3 && candidate != pressed {
            pressed = candidate;
            if pressed {
                held_ms = 0;
                long_sent = false;
            } else if !long_sent {
                r = Some(Press::Short);
                released = true;
            }
        }
        if !released && pressed && !long_sent {
            held_ms = held_ms + POLL_MS;
            if held_ms >= LONG_MS {
                long_sent = true;
                r = Some(Press::Long);
            }
        }
        *self = Button { pressed, candidate, same, held_ms, long_sent };
        r
    }
}

impl Default for Button {
    fn default() -> (b: Button)
        ensures
            b@ == (ButtonState {
                pressed: false,
                candidate: false,
                same: 0,
                held_ms: 0,
                long_sent: false,
            }),
    {
        Button::new()
    }
}

/// A press is reported as long at most once: after a long press, polling
/// reports no further long press until the button is released and pressed
/// again, and its release reports no short press.
pub proof fn law_long_press_once(s: ButtonState, raw_pressed: bool)
    requires
        s.pressed,
        s.long_sent,
    ensures
        spec_poll(s, raw_pressed).1 != Some(Press::Long),
        spec_poll(s, raw_pressed).1 != Some(Press::Short),
{
}

/// A short press is reported only when the debounced level goes from down
/// to up, and a long press only while it is down.
pub proof fn law_press_edges(s: ButtonState, raw_pressed: bool)
    ensures
        spec_poll(s, raw_pressed).1 == Some(Press::Short) ==> s.pressed && !spec_poll(
            s,
            raw_pressed,
        ).0.pressed && !s.long_sent,
        spec_poll(s, raw_pressed).1 == Some(Press::Long) ==> spec_poll(s, raw_pressed).0.pressed
            && spec_poll(s, raw_pressed).0.long_sent,
{
}

/// Every debounced press starts a new press, whatever came before: when the
/// debounced level goes from up to down, nothing is reported yet, the press
/// is not yet long, and it has been held for this one sample.
pub proof fn law_press_starts_fresh(s: ButtonState, raw_pressed: bool)
    requires
        !s.pressed,
        spec_poll(s, raw_pressed).0.pressed,
    ensures
        spec_poll(s, raw_pressed).1 is None,
        !spec_poll(s, raw_pressed).0.long_sent,
        spec_poll(s, raw_pressed).0.held_ms == POLL_MS,
{
}

/// A press released before it is long is reported as short: from a press
/// not yet long and with more than two samples to go before `LONG_MS`,
/// three released samples report `Short`.
pub proof fn law_early_release_is_short(s: ButtonState)
    requires
        s.pressed,
        !s.long_sent,
        s.held_ms + 2 * POLL_MS < LONG_MS,
    ensures
        ({
            let (s1, r1) = spec_poll(s, false);
            let (s2, r2) = spec_poll(s1, false);
            let (s3, r3) = spec_poll(s2, false);
            r1 == Some(Press::Short) || r2 == Some(Press::Short) || r3 == Some(Press::Short)
        }),
{
}

/// A press held long enough is reported as long: once the debounced level
/// is down and the press is not yet long, the sample that brings the held
/// time to `LONG_MS` reports `Long`.
pub proof fn law_held_press_is_long(s: ButtonState)
    requires
        s.pressed,
        s.candidate,
        !s.long_sent,
        s.held_ms + POLL_MS >= LONG_MS,
        s.held_ms < LONG_MS,
    ensures
        spec_poll(s, true).1 == Some(Press::Long),
{
}

/// Preset cycle: Fixed 6 → Fixed 1 → Fixed 11 → Hop → Fixed 6; any other
/// fixed channel goes to Fixed 6.
pub open spec fn spec_next_preset(hop_mode: bool, channel: u8) -> RadioCmd {
    if hop_mode {
        RadioCmd::SetFixed(6)
    } else if channel == 6 {
        RadioCmd::SetFixed(1)
    } else if channel == 1 {
        RadioCmd::SetFixed(11)
    } else if channel == 11 {
        RadioCmd::SetHop
    } else {
        RadioCmd::SetFixed(6)
    }
}

/// The radio preset after the current one.
pub fn next_preset(hop_mode: bool, channel: u8) -> (c: RadioCmd)
    ensures
        c == spec_next_preset(hop_mode, channel),
{
    if hop_mode {
        return RadioCmd::SetFixed(6);
    }
    match channel {
        6 => RadioCmd::SetFixed(1),
        1 => RadioCmd::SetFixed(11),
        11 => RadioCmd::SetHop,
        _ => RadioCmd::SetFixed(6),
    }
}

/// What one tick of both buttons asks for: button A's short press selects
/// the next track and its long press toggles the view; button B's short
/// press moves to the next radio preset and redraws, its long press clears
/// the tracks. A's event wins when both have one; B's preset is asked for
/// either way.
pub fn button_actions(a: Option<Press>, b: Option<Press>, hop_mode: bool, channel: u8) -> (r: (
    Option<UiEvt>,
    Option<RadioCmd>,
))
    ensures
        r.1 == (if b == Some(Press::Short) {
            Some(spec_next_preset(hop_mode, channel))
        } else {
            None
        }),
        r.0 == match a {
            Some(Press::Short) => Some(UiEvt::NextTrack),
            Some(Press::Long) => Some(UiEvt::ToggleView),
            None => match b {
                Some(Press::Short) => Some(UiEvt::Redraw),
                Some(Press::Long) => Some(UiEvt::ClearTracks),
                None => None,
            },
        },
{
    let evt = match a {
        Some(Press::Short) => Some(UiEvt::NextTrack),
        Some(Press::Long) => Some(UiEvt::ToggleView),
        None => None,
    };
    let (b_evt, cmd) = match b {
        Some(Press::Short) => (Some(UiEvt::Redraw), Some(next_preset(hop_mode, channel))),
        Some(Press::Long) => (Some(UiEvt::ClearTracks), None),
        None => (None, None),
    };
    let evt = match evt {
        Some(e) => Some(e),
        None => b_evt,
    };
    (evt, cmd)
}

} // verus!
