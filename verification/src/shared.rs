//! The settings that the clicking and hotkey workers read, and how the
//! settings window hands them over.

use vstd::prelude::*;

use crate::settings::{
    duration_ms_spec, App, BUTTON_LEFT, BUTTON_RIGHT, MODE_CLICK, REPEAT_DURATION, REPEAT_FOREVER,
    REPEAT_TIMES, VK_F1,
};

use windows_sys::Win32::UI::Input::KeyboardAndMouse::{
    MOUSEEVENTF_LEFTDOWN, MOUSEEVENTF_LEFTUP, MOUSEEVENTF_RIGHTDOWN, MOUSEEVENTF_RIGHTUP,
};

verus! {

/// What the workers read: whether a run is on, the clicking settings of the
/// run, the start/stop key and how far the run got.
pub struct Shared {
    pub active: bool,
    pub mode: u8,
    pub button: u8,
    pub interval_ms: u64,
    /// 0 = no click-count limit
    pub times: u64,
    /// 0 = no time limit
    pub duration_ms: u64,
    pub hotkey_vk: u32,
    /// False when the start/stop key could not be registered (key owned by
    /// another app).
    pub hotkey_ok: bool,
    pub clicks_done: u64,
}

impl Shared {
    /// The shared state before the settings window hands anything over.
    pub fn new() -> (s: Shared)
        ensures
            !s.active,
            s.mode == MODE_CLICK,
            s.button == BUTTON_LEFT,
            s.interval_ms == 100,
            s.times == 0,
            s.duration_ms == 0,
            s.hotkey_vk == VK_F1 + 8,
            s.hotkey_ok,
            s.clicks_done == 0,
    {
        Shared {
            active: false,
            mode: MODE_CLICK,
            button: BUTTON_LEFT,
            interval_ms: 100,
            times: 0,
            duration_ms: 0,
            hotkey_vk: VK_F1 + 8,  // F9
            hotkey_ok: true,
            clicks_done: 0,
        }
    }
}

/// The click-count limit and the time limit, in milliseconds, of a run with
/// the repeat setting `repeat` (0 = no limit).
pub open spec fn run_limits(repeat: u8, times: u64, duration_ms: int) -> (int, int) {
    if repeat == REPEAT_TIMES {
        (if times >= 1 {
            times as int
        } else {
            1
        }, 0)
    } else if repeat == REPEAT_DURATION {
        (0, duration_ms)
    } else {
        (0, 0)
    }
}

impl App {
    /// Hands the settings over to the workers; the run state, the key status
    /// and the click count stay as they are.
    pub fn push_settings(&self, s: &mut Shared)
        requires
            (self.hotkey_index as u32) + VK_F1 <= u32::MAX,
        ensures
            final(s).mode == self.mode,
            final(s).button == self.button,
            final(s).interval_ms == if self.interval_ms >= 1 {
                self.interval_ms
            } else {
                1
            },
            (final(s).times as int, final(s).duration_ms as int) == run_limits(
                self.repeat,
                self.times,
                duration_ms_spec(self.dur_h, self.dur_m, self.dur_s),
            ),
            final(s).hotkey_vk == VK_F1 + (self.hotkey_index as u32),
            final(s).active == old(s).active,
            final(s).hotkey_ok == old(s).hotkey_ok,
            final(s).clicks_done == old(s).clicks_done,
    {
        s.mode = self.mode;
        s.button = self.button;
        s.interval_ms = if self.interval_ms >= 1 {
            self.interval_ms
        } else {
            1
        };
        let (times, duration_ms) = if self.repeat == REPEAT_TIMES {
            (if self.times >= 1 {
                self.times
            } else {
                1
            }, 0)
        } else if self.repeat == REPEAT_DURATION {
            (0, self.duration_ms())
        } else {
            (0, 0)
        };
        s.times = times;
        s.duration_ms = duration_ms;
        s.hotkey_vk = VK_F1 + self.hotkey_index as u32;
    }
}

/// `MOUSEEVENTF_LEFTDOWN` and `MOUSEEVENTF_LEFTUP` of windows-sys: the input
/// flags that press and release the left mouse button (2 and 4).
#[verifier::external_body]
fn left_button_flags() -> (r: (u32, u32))
    ensures
        r == (2u32, 4u32),
{
    (MOUSEEVENTF_LEFTDOWN, MOUSEEVENTF_LEFTUP)
}

/// `MOUSEEVENTF_RIGHTDOWN` and `MOUSEEVENTF_RIGHTUP` of windows-sys: the input
/// flags that press and release the right mouse button (8 and 16).
#[verifier::external_body]
fn right_button_flags() -> (r: (u32, u32))
    ensures
        r == (8u32, 16u32),
{
    (MOUSEEVENTF_RIGHTDOWN, MOUSEEVENTF_RIGHTUP)
}

/// The input flags that press and release the mouse button `button`: the
/// right button for `BUTTON_RIGHT`, the left one otherwise.
pub open spec fn button_flags_spec(button: u8) -> (u32, u32) {
    if button == BUTTON_RIGHT {
        (8u32, 16u32)
    } else {
        (2u32, 4u32)
    }
}

/// The input flags that press and release the mouse button `button`, as
/// `button_flags_spec` says.
pub fn button_flags(button: u8) -> (r: (u32, u32))
    ensures
        r == button_flags_spec(button),
{
    if button == BUTTON_RIGHT {
        right_button_flags()
    } else {
        left_button_flags()
    }
}

/// A run gets the limits that the repeat choice names: with a click count,
/// exactly the chosen count (one when zero was typed) and no time limit; with
/// a duration of `h:m:s`, that time in milliseconds and no click limit;
/// forever, neither limit.
pub proof fn lemma_run_limits(times: u64, h: u32, m: u32, s: u32)
    ensures
        times >= 1 ==> run_limits(REPEAT_TIMES, times, duration_ms_spec(h, m, s)) == (
            times as int,
            0int,
        ),
        run_limits(REPEAT_TIMES, 0, duration_ms_spec(h, m, s)) == (1int, 0int),
        run_limits(REPEAT_DURATION, times, duration_ms_spec(h, m, s)) == (
            0int,
            ((h * 60 + m) * 60 + s) * 1000,
        ),
        run_limits(REPEAT_FOREVER, times, duration_ms_spec(h, m, s)) == (0int, 0int),
{
    assert((h * 3600 + m * 60 + s) * 1000 == ((h * 60 + m) * 60 + s) * 1000) by (nonlinear_arith);
}

} // verus!
