//! What the window shows and decides apart from drawing: texts, the window
//! level, the repeat choice a mode allows, and when to save the settings.

use vstd::arithmetic::div_mod::lemma_fundamental_div_mod_converse;
use vstd::prelude::*;

use crate::config::settings_text;
use crate::settings::{
    hotkey_name_spec, App, BUTTON_RIGHT, MODE_CLICK, REPEAT_FOREVER, REPEAT_TIMES,
    TOP_ALWAYS, TOP_WHILE_RUNNING,
};
use crate::text::{decimal, decimal2, push_decimal, push_decimal2, push_str};

verus! {

/// Whether the window stays above others: always, while a run is on, or never.
pub fn want_on_top(on_top: u8, running: bool) -> (b: bool)
    ensures
        b == (on_top == TOP_ALWAYS || (on_top == TOP_WHILE_RUNNING && running)),
{
    if on_top == TOP_ALWAYS {
        true
    } else if on_top == TOP_WHILE_RUNNING {
        running
    } else {
        false
    }
}

/// `hh:mm:ss left`, the time left of a run of `duration_ms` milliseconds
/// after `elapsed_ns` nanoseconds, in whole seconds (never below zero).
pub open spec fn countdown_spec(duration_ms: u64, elapsed_ns: u128) -> Seq<char> {
    let total_ns = duration_ms as int * 1_000_000;
    let left_ns = if elapsed_ns >= total_ns {
        0
    } else {
        total_ns - elapsed_ns
    };
    let s = left_ns / 1_000_000_000;
    decimal2((s / 3600) as nat) + seq![':'] + decimal2(((s % 3600) / 60) as nat) + seq![':']
        + decimal2((s % 60) as nat) + " left"@
}

/// The remaining-time line of a duration-limited run.
pub fn countdown_text(duration_ms: u64, elapsed_ns: u128) -> (t: String)
    ensures
        t@ == countdown_spec(duration_ms, elapsed_ns),
{
    let total_ns: u128 = duration_ms as u128 * 1_000_000;
    let left_ns: u128 = if elapsed_ns >= total_ns {
        0
    } else {
        total_ns - elapsed_ns
    };
    let s: u64 = (left_ns / 1_000_000_000) as u64;
    let mut t = String::new();
    push_decimal2(&mut t, s / 3600);
    push_str(&mut t, ":");
    push_decimal2(&mut t, s % 3600 / 60);
    push_str(&mut t, ":");
    push_decimal2(&mut t, s % 60);
    push_str(&mut t, " left");
    proof {
        reveal_strlit(":");
    }
    t
}

impl App {
    /// Leaves the repeat choice to what the mode allows: "N times" makes no
    /// sense when holding the button, so it becomes "Forever".
    pub fn coerce_repeat_for_mode(&mut self)
        ensures
            final(self).repeat == if old(self).mode != MODE_CLICK && old(self).repeat
                == REPEAT_TIMES {
                REPEAT_FOREVER
            } else {
                old(self).repeat
            },
            final(self).settings() == (crate::settings::SettingsModel {
                repeat: final(self).repeat,
                ..old(self).settings()
            }),
            final(self).same_window_state(old(self)),
    {
        if self.mode != MODE_CLICK && self.repeat == REPEAT_TIMES {
            self.repeat = REPEAT_FOREVER;
        }
    }

    /// The configuration text to write, when it differs from the last text
    /// written to disk; nothing changes here.
    pub fn changed_snapshot(&self) -> (r: Option<String>)
        requires
            self.hotkey_index < usize::MAX,
        ensures
            match r {
                Some(t) => t@ == settings_text(self.settings()) && self.saved@ != t@,
                None => self.saved@ == settings_text(self.settings()),
            },
    {
        let snapshot = self.settings_string();
        if snapshot != self.saved {
            Some(snapshot)
        } else {
            None
        }
    }

    /// Records the outcome of writing `snapshot` to disk: a written text is the
    /// last one saved; after a failed or skipped write the last saved text
    /// stays, so the next change check offers the text again.
    pub fn record_write(&mut self, snapshot: String, written: bool)
        ensures
            written ==> final(self).saved@ == snapshot@,
            !written ==> final(self).saved@ == old(self).saved@,
            final(self).settings() == old(self).settings(),
            final(self).new_preset_name@ == old(self).new_preset_name@,
            final(self).advanced_open == old(self).advanced_open,
    {
        if written {
            self.saved = snapshot;
        }
    }

    /// The hint under the start button: how to start and stop, or that the
    /// key is taken.
    pub fn idle_hint(&self, hotkey_ok: bool) -> (t: String)
        requires
            self.hotkey_index < usize::MAX,
        ensures
            t@ == if hotkey_ok {
                "Idle. Press "@ + hotkey_name_spec(self.hotkey_index) + " to start/stop"@
            } else {
                hotkey_name_spec(self.hotkey_index)
                    + " is taken by another app (autoclicker already running?). Close it or pick another key"@
            },
    {
        let name = self.hotkey_name();
        let mut t = String::new();
        if hotkey_ok {
            push_str(&mut t, "Idle. Press ");
            push_str(&mut t, name.as_str());
            push_str(&mut t, " to start/stop");
        } else {
            push_str(&mut t, name.as_str());
            push_str(
                &mut t,
                " is taken by another app (autoclicker already running?). Close it or pick another key",
            );
        }
        t
    }

    /// The hint shown while a run is on.
    pub fn stop_hint(&self) -> (t: String)
        requires
            self.hotkey_index < usize::MAX,
        ensures
            t@ == "press "@ + hotkey_name_spec(self.hotkey_index) + " to stop"@,
    {
        let name = self.hotkey_name();
        let mut t = String::new();
        push_str(&mut t, "press ");
        push_str(&mut t, name.as_str());
        push_str(&mut t, " to stop");
        t
    }

    /// The title of a hold run.
    pub fn holding_text(&self) -> (t: String)
        ensures
            t@ == "Holding "@ + (if self.button == BUTTON_RIGHT {
                "right"@
            } else {
                "left"@
            }) + " button"@,
    {
        let mut t = String::new();
        push_str(&mut t, "Holding ");
        push_str(&mut t, if self.button == BUTTON_RIGHT { "right" } else { "left" });
        push_str(&mut t, " button");
        t
    }

    /// The click counter of a click run: `n`, then ` / <limit>` when the run
    /// has a click-count limit.
    pub fn clicks_text(&self, n: u64) -> (t: String)
        ensures
            t@ == decimal(n as nat) + if self.repeat == REPEAT_TIMES {
                " / "@ + decimal(self.times as nat)
            } else {
                Seq::<char>::empty()
            },
    {
        let mut t = String::new();
        push_decimal(&mut t, n);
        if self.repeat == REPEAT_TIMES {
            push_str(&mut t, " / ");
            push_decimal(&mut t, self.times);
        }
        t
    }
}

/// Settings are saved until a write succeeds: when the settings differ from
/// the last text written and a write of their text is recorded (with the
/// settings unchanged), the next change check offers that text again exactly
/// when the write failed or was skipped.
pub proof fn lemma_saved_until_written(app: App, after: App, written: bool)
    requires
        app.saved@ != settings_text(app.settings()),
        after.settings() == app.settings(),
        after.saved@ == (if written {
            settings_text(app.settings())
        } else {
            app.saved@
        }),
    ensures
        (after.saved@ != settings_text(after.settings())) == !written,
{
}

/// The countdown shows the whole seconds left as hours, minutes and seconds:
/// when `h:m:s` (minutes and seconds below 60) is the time left of a run of
/// `duration_ms` ms after `elapsed_ns` ns, rounded down to whole seconds, the
/// line reads `hh:mm:ss left` with those three numbers; a run past its time
/// shows zero.
pub proof fn lemma_countdown_fields(duration_ms: u64, elapsed_ns: u128, h: nat, m: nat, sec: nat)
    requires
        m < 60,
        sec < 60,
        ({
            let left = if elapsed_ns >= duration_ms * 1_000_000 {
                0
            } else {
                duration_ms * 1_000_000 - elapsed_ns
            };
            let x = h * 3600 + m * 60 + sec;
            x * 1_000_000_000 <= left < (x + 1) * 1_000_000_000
        }),
    ensures
        countdown_spec(duration_ms, elapsed_ns) == decimal2(h) + seq![':'] + decimal2(m) + seq![
            ':',
        ] + decimal2(sec) + " left"@,
{
    let left: int = if elapsed_ns >= duration_ms * 1_000_000 {
        0
    } else {
        duration_ms * 1_000_000 - elapsed_ns
    };
    let x: int = (h * 3600 + m * 60 + sec) as int;
    lemma_fundamental_div_mod_converse(left, 1_000_000_000, x, left - x * 1_000_000_000);
    let hi: int = h as int;
    let mi: int = m as int;
    let si: int = sec as int;
    lemma_fundamental_div_mod_converse(x, 3600, hi, mi * 60 + si);
    lemma_fundamental_div_mod_converse(mi * 60 + si, 60, mi, si);
    assert(x == (hi * 60 + mi) * 60 + si) by (nonlinear_arith)
        requires
            x == hi * 3600 + mi * 60 + si,
    ;
    lemma_fundamental_div_mod_converse(x, 60, hi * 60 + mi, si);
}

} // verus!
