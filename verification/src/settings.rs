//! The clicking settings, the saved presets and the state that the settings
//! window edits.

use vstd::prelude::*;

use crate::text::{decimal, push_char, push_decimal};

verus! {

pub const MODE_CLICK: u8 = 0;
pub const MODE_HOLD: u8 = 1;
pub const REPEAT_FOREVER: u8 = 0;
pub const REPEAT_TIMES: u8 = 1;
pub const REPEAT_DURATION: u8 = 2;
pub const TOP_OFF: u8 = 0;
pub const TOP_ALWAYS: u8 = 1;
pub const TOP_WHILE_RUNNING: u8 = 2;
pub const BUTTON_LEFT: u8 = 0;
pub const BUTTON_RIGHT: u8 = 1;

/// Virtual-key code of F1; F1..F12 are consecutive.
pub const VK_F1: u32 = 0x70;

/// Bounds that the settings window and the configuration reader keep.
pub const INTERVAL_MIN: u64 = 1;
pub const INTERVAL_MAX: u64 = 600_000;
pub const TIMES_MIN: u64 = 1;
pub const TIMES_MAX: u64 = 1_000_000;
pub const HOURS_MAX: u32 = 99;
pub const MINUTES_MAX: u32 = 59;
pub const SECONDS_MAX: u32 = 59;

/// A saved snapshot of the clicking settings (not hotkey / window options).
#[derive(Clone, PartialEq, Debug)]
pub struct Preset {
    pub name: String,
    pub mode: u8,
    pub button: u8,
    pub interval_ms: u64,
    pub repeat: u8,
    pub times: u64,
    pub dur_h: u32,
    pub dur_m: u32,
    pub dur_s: u32,
}

/// What a preset holds, with its name as characters.
#[verifier::ext_equal]
pub struct PresetModel {
    pub name: Seq<char>,
    pub mode: u8,
    pub button: u8,
    pub interval_ms: u64,
    pub repeat: u8,
    pub times: u64,
    pub dur_h: u32,
    pub dur_m: u32,
    pub dur_s: u32,
}

impl View for Preset {
    type V = PresetModel;

    open spec fn view(&self) -> PresetModel {
        PresetModel {
            name: self.name@,
            mode: self.mode,
            button: self.button,
            interval_ms: self.interval_ms,
            repeat: self.repeat,
            times: self.times,
            dur_h: self.dur_h,
            dur_m: self.dur_m,
            dur_s: self.dur_s,
        }
    }
}

impl Preset {
    /// A copy of the preset.
    pub fn duplicate(&self) -> (r: Preset)
        ensures
            r@ == self@,
    {
        Preset {
            name: self.name.clone(),
            mode: self.mode,
            button: self.button,
            interval_ms: self.interval_ms,
            repeat: self.repeat,
            times: self.times,
            dur_h: self.dur_h,
            dur_m: self.dur_m,
            dur_s: self.dur_s,
        }
    }

    /// Whether two presets hold the same name and settings.
    pub fn same_as(&self, other: &Preset) -> (b: bool)
        ensures
            b == (self@ == other@),
    {
        self.name == other.name && self.mode == other.mode && self.button == other.button
            && self.interval_ms == other.interval_ms && self.repeat == other.repeat && self.times
            == other.times && self.dur_h == other.dur_h && self.dur_m == other.dur_m && self.dur_s
            == other.dur_s
    }
}

/// The settings that are saved to the configuration file.
#[verifier::ext_equal]
pub struct SettingsModel {
    pub mode: u8,
    pub button: u8,
    pub interval_ms: u64,
    pub repeat: u8,
    pub times: u64,
    pub dur_h: u32,
    pub dur_m: u32,
    pub dur_s: u32,
    pub hotkey_index: usize,
    pub on_top: u8,
    pub presets: Seq<PresetModel>,
    pub current_preset: Option<Seq<char>>,
}

/// The settings a fresh start has.
pub open spec fn default_settings() -> SettingsModel {
    SettingsModel {
        mode: MODE_CLICK,
        button: BUTTON_LEFT,
        interval_ms: 100,
        repeat: REPEAT_FOREVER,
        times: 100,
        dur_h: 0,
        dur_m: 1,
        dur_s: 0,
        hotkey_index: 8,
        on_top: TOP_OFF,
        presets: Seq::empty(),
        current_preset: None,
    }
}

/// The clicking settings of the "Default" entry.
pub open spec fn default_preset_values() -> PresetModel {
    PresetModel {
        name: Seq::empty(),
        mode: MODE_CLICK,
        button: BUTTON_LEFT,
        interval_ms: 100,
        repeat: REPEAT_FOREVER,
        times: 100,
        dur_h: 0,
        dur_m: 1,
        dur_s: 0,
    }
}

impl SettingsModel {
    /// The clicking settings, saved under `name`.
    pub open spec fn capture(self, name: Seq<char>) -> PresetModel {
        PresetModel {
            name: name,
            mode: self.mode,
            button: self.button,
            interval_ms: self.interval_ms,
            repeat: self.repeat,
            times: self.times,
            dur_h: self.dur_h,
            dur_m: self.dur_m,
            dur_s: self.dur_s,
        }
    }

    /// These settings with the clicking settings of `p`.
    pub open spec fn with_values_of(self, p: PresetModel) -> SettingsModel {
        SettingsModel {
            mode: p.mode,
            button: p.button,
            interval_ms: p.interval_ms,
            repeat: p.repeat,
            times: p.times,
            dur_h: p.dur_h,
            dur_m: p.dur_m,
            dur_s: p.dur_s,
            ..self
        }
    }

    /// Some preset has the name `name`.
    pub open spec fn has_preset_named(self, name: Seq<char>) -> bool {
        exists|i: int| 0 <= i < self.presets.len() && #[trigger] self.presets[i].name == name
    }

    /// The current preset, if any, names a saved preset.
    pub open spec fn current_is_saved(self) -> bool {
        match self.current_preset {
            Some(c) => self.has_preset_named(c),
            None => true,
        }
    }

    /// No two presets share a name.
    pub open spec fn names_unique(self) -> bool {
        forall|i: int, j: int|
            0 <= i < self.presets.len() && 0 <= j < self.presets.len() && i != j
                ==> #[trigger] self.presets[i].name != #[trigger] self.presets[j].name
    }
}

/// `F1` .. `F12` for the key indices 0 .. 11, and so on.
pub open spec fn hotkey_name_spec(index: usize) -> Seq<char> {
    seq!['F'] + decimal((index + 1) as nat)
}

/// The length of a run of `h` hours, `m` minutes and `s` seconds, in milliseconds.
pub open spec fn duration_ms_spec(h: u32, m: u32, s: u32) -> int {
    (h * 3600 + m * 60 + s) * 1000
}

/// The state that the settings window edits.
pub struct App {
    pub mode: u8,
    pub button: u8,
    pub interval_ms: u64,
    pub repeat: u8,
    pub times: u64,
    pub dur_h: u32,
    pub dur_m: u32,
    pub dur_s: u32,
    /// 0 => F1 ... 11 => F12
    pub hotkey_index: usize,
    pub on_top: u8,
    pub presets: Vec<Preset>,
    /// Name of the preset last applied/saved; None = Default.
    pub current_preset: Option<String>,
    pub new_preset_name: String,
    pub advanced_open: bool,
    /// Last settings snapshot written to disk, to save only on change.
    pub saved: String,
}

/// The view of an optional string.
pub open spec fn opt_view(o: Option<String>) -> Option<Seq<char>> {
    match o {
        Some(s) => Some(s@),
        None => None,
    }
}

impl App {
    /// The settings that this state saves.
    pub open spec fn settings(&self) -> SettingsModel {
        SettingsModel {
            mode: self.mode,
            button: self.button,
            interval_ms: self.interval_ms,
            repeat: self.repeat,
            times: self.times,
            dur_h: self.dur_h,
            dur_m: self.dur_m,
            dur_s: self.dur_s,
            hotkey_index: self.hotkey_index,
            on_top: self.on_top,
            presets: self.presets@.map_values(|p: Preset| p@),
            current_preset: opt_view(self.current_preset),
        }
    }

    /// The parts of the state that the configuration file does not hold are
    /// the same in `self` and `other`.
    pub open spec fn same_window_state(&self, other: &App) -> bool {
        &&& self.new_preset_name@ == other.new_preset_name@
        &&& self.advanced_open == other.advanced_open
        &&& self.saved@ == other.saved@
    }

    /// The index of the first preset named `name`, if there is one.
    pub fn find_preset(&self, name: &String) -> (r: Option<usize>)
        ensures
            match r {
                Some(i) => {
                    &&& i < self.presets@.len()
                    &&& self.presets@[i as int].name@ == name@
                    &&& forall|j: int| 0 <= j < i ==> self.presets@[j].name@ != name@
                },
                None => !self.settings().has_preset_named(name@),
            },
    {
        let mut i: usize = 0;
        while i < self.presets.len()
            invariant
                i <= self.presets@.len(),
                forall|j: int| 0 <= j < i ==> self.presets@[j].name@ != name@,
            decreases self.presets@.len() - i,
        {
            if self.presets[i].name == *name {
                return Some(i);
            }
            i = i + 1;
        }
        proof {
            let st = self.settings();
            assert forall|j: int| 0 <= j < st.presets.len() implies #[trigger] st.presets[j].name
                != name@ by {
                assert(st.presets[j] == self.presets@[j]@);
            }
        }
        None
    }

    /// A preset named `name` that holds the current clicking settings.
    pub fn capture_preset(&self, name: String) -> (p: Preset)
        ensures
            p@ == self.settings().capture(name@),
    {
        Preset {
            name,
            mode: self.mode,
            button: self.button,
            interval_ms: self.interval_ms,
            repeat: self.repeat,
            times: self.times,
            dur_h: self.dur_h,
            dur_m: self.dur_m,
            dur_s: self.dur_s,
        }
    }

    /// Takes over the clicking settings of `p`.
    pub fn apply_preset(&mut self, p: &Preset)
        ensures
            final(self).settings() == old(self).settings().with_values_of(p@),
            final(self).same_window_state(old(self)),
    {
        self.mode = p.mode;
        self.button = p.button;
        self.interval_ms = p.interval_ms;
        self.repeat = p.repeat;
        self.times = p.times;
        self.dur_h = p.dur_h;
        self.dur_m = p.dur_m;
        self.dur_s = p.dur_s;
    }

    /// Takes over the clicking settings of the "Default" entry.
    pub fn apply_default(&mut self)
        ensures
            final(self).settings() == old(self).settings().with_values_of(default_preset_values()),
            final(self).same_window_state(old(self)),
    {
        self.apply_preset(
            &Preset {
                name: String::new(),
                mode: MODE_CLICK,
                button: BUTTON_LEFT,
                interval_ms: 100,
                repeat: REPEAT_FOREVER,
                times: 100,
                dur_h: 0,
                dur_m: 1,
                dur_s: 0,
            },
        );
    }

    /// The length of a duration-limited run, in milliseconds.
    pub fn duration_ms(&self) -> (ms: u64)
        ensures
            ms == duration_ms_spec(self.dur_h, self.dur_m, self.dur_s),
    {
        (self.dur_h as u64 * 3600 + self.dur_m as u64 * 60 + self.dur_s as u64) * 1000
    }

    /// The name of the start/stop key, such as `F9`.
    pub fn hotkey_name(&self) -> (s: String)
        requires
            self.hotkey_index < usize::MAX,
        ensures
            s@ == hotkey_name_spec(self.hotkey_index),
    {
        let mut s = String::new();
        push_char(&mut s, 'F');
        push_decimal(&mut s, (self.hotkey_index + 1) as u64);
        s
    }
}

} // verus!
