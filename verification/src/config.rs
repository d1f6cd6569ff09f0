//! The configuration file: one `key=value` setting per line, and one
//! `preset.<name>=<eight numbers>` line per saved preset.

use vstd::prelude::*;

use crate::settings::{
    default_settings, hotkey_name_spec, App, Preset, PresetModel, SettingsModel, BUTTON_LEFT, BUTTON_RIGHT, HOURS_MAX, INTERVAL_MAX, INTERVAL_MIN,
    MINUTES_MAX, MODE_CLICK, MODE_HOLD, REPEAT_DURATION, REPEAT_FOREVER, REPEAT_TIMES,
    SECONDS_MAX, TIMES_MAX, TIMES_MIN, TOP_ALWAYS, TOP_OFF, TOP_WHILE_RUNNING,
};
use crate::text::{
    decimal, decimal2, join_lines, join_with, push_char, push_decimal, push_decimal2, push_str,
    chars_of, find_in_range, find_char, lemma_split_char_len, lines_of, parse_decimal,
    parse_u32_range, parse_u32_spec, parse_u64_range, parse_u64_spec, range_equals, split_char,
    string_of_range, strip_cr,
};

verus! {

// ---------------------------------------------------------------------------
// What a configuration text means
// ---------------------------------------------------------------------------

/// The text before and after the first `c` of `s`, if `s` holds one.
pub open spec fn split_once(s: Seq<char>, c: char) -> Option<(Seq<char>, Seq<char>)> {
    let i = find_char(s, c);
    if i < 0 {
        None
    } else {
        Some((s.take(i), s.skip(i + 1)))
    }
}

pub open spec fn at_most_u8(x: u8, m: u8) -> u8 {
    if x <= m {
        x
    } else {
        m
    }
}

pub open spec fn at_most_u32(x: u32, m: u32) -> u32 {
    if x <= m {
        x
    } else {
        m
    }
}

pub open spec fn clamp_u64(x: u64, lo: u64, hi: u64) -> u64 {
    if x < lo {
        lo
    } else if x > hi {
        hi
    } else {
        x
    }
}

/// The numbers among `pieces`: the pieces that do not read as a `u64` are
/// left out.
pub open spec fn parse_fields(pieces: Seq<Seq<char>>) -> Seq<u64>
    decreases pieces.len(),
{
    if pieces.len() == 0 {
        Seq::empty()
    } else {
        let r = parse_fields(pieces.drop_last());
        match parse_u64_spec(pieces.last()) {
            Some(n) => r.push(n),
            None => r,
        }
    }
}

/// The preset that a `preset.<name>` line with the eight numbers `f` gives,
/// each number cast to its field's type and fitted into its bounds.
pub open spec fn preset_from_fields(name: Seq<char>, f: Seq<u64>) -> PresetModel {
    PresetModel {
        name: name,
        mode: at_most_u8(f[0] as u8, 1),
        button: at_most_u8(f[1] as u8, 1),
        interval_ms: clamp_u64(f[2], INTERVAL_MIN, INTERVAL_MAX),
        repeat: at_most_u8(f[3] as u8, 2),
        times: clamp_u64(f[4], TIMES_MIN, TIMES_MAX),
        dur_h: at_most_u32(f[5] as u32, HOURS_MAX),
        dur_m: at_most_u32(f[6] as u32, MINUTES_MAX),
        dur_s: at_most_u32(f[7] as u32, SECONDS_MAX),
    }
}

/// `s.parse::<u32>().unwrap_or(0)`.
pub open spec fn u32_or_zero(s: Seq<char>) -> u32 {
    match parse_u32_spec(s) {
        Some(n) => n,
        None => 0,
    }
}

/// Hours, minutes and seconds of a `duration` value: the first three
/// `':'`-separated parts (the last one takes the rest), each read as a `u32`
/// or 0.
pub open spec fn duration_parts(v: Seq<char>) -> (u32, u32, u32) {
    let i = find_char(v, ':');
    if i < 0 {
        (u32_or_zero(v), 0, 0)
    } else {
        let r = v.skip(i + 1);
        let j = find_char(r, ':');
        if j < 0 {
            (u32_or_zero(v.take(i)), u32_or_zero(r), 0)
        } else {
            (u32_or_zero(v.take(i)), u32_or_zero(r.take(j)), u32_or_zero(r.skip(j + 1)))
        }
    }
}

/// The key index that a hotkey name `F1` .. `F12` stands for.
pub open spec fn parse_fkey_spec(s: Seq<char>) -> Option<usize> {
    if s.len() > 0 && s[0] == 'F' {
        match parse_decimal(s.drop_first()) {
            Some(n) => if 1 <= n <= 12 {
                Some((n - 1) as usize)
            } else {
                None
            },
            None => None,
        }
    } else {
        None
    }
}

/// The effect of the setting `k=v` (a key that is no preset key).
pub open spec fn apply_setting(st: SettingsModel, k: Seq<char>, v: Seq<char>) -> SettingsModel {
    if k == "mode"@ {
        SettingsModel {
            mode: if v == "hold"@ {
                MODE_HOLD
            } else {
                MODE_CLICK
            },
            ..st
        }
    } else if k == "button"@ {
        SettingsModel {
            button: if v == "right"@ {
                BUTTON_RIGHT
            } else {
                BUTTON_LEFT
            },
            ..st
        }
    } else if k == "interval_ms"@ {
        match parse_u64_spec(v) {
            Some(n) => SettingsModel { interval_ms: n, ..st },
            None => st,
        }
    } else if k == "forever"@ {
        SettingsModel {
            repeat: if v == "1"@ {
                REPEAT_FOREVER
            } else {
                REPEAT_TIMES
            },
            ..st
        }
    } else if k == "repeat"@ {
        SettingsModel {
            repeat: if v == "times"@ {
                REPEAT_TIMES
            } else if v == "duration"@ {
                REPEAT_DURATION
            } else {
                REPEAT_FOREVER
            },
            ..st
        }
    } else if k == "times"@ {
        match parse_u64_spec(v) {
            Some(n) => SettingsModel { times: n, ..st },
            None => st,
        }
    } else if k == "duration"@ {
        let (h, m, s) = duration_parts(v);
        SettingsModel {
            dur_h: at_most_u32(h, HOURS_MAX),
            dur_m: at_most_u32(m, MINUTES_MAX),
            dur_s: at_most_u32(s, SECONDS_MAX),
            ..st
        }
    } else if k == "hotkey"@ {
        match parse_fkey_spec(v) {
            Some(i) => SettingsModel { hotkey_index: i, ..st },
            None => st,
        }
    } else if k == "ontop"@ {
        SettingsModel {
            on_top: if v == "1"@ {
                TOP_ALWAYS
            } else if v == "2"@ {
                TOP_WHILE_RUNNING
            } else {
                TOP_OFF
            },
            ..st
        }
    } else if k == "current"@ {
        if v.len() > 0 {
            SettingsModel { current_preset: Some(v), ..st }
        } else {
            st
        }
    } else {
        st
    }
}

/// The effect of one line of the configuration file.
pub open spec fn apply_line(st: SettingsModel, line: Seq<char>) -> SettingsModel {
    match split_once(line, '=') {
        None => st,
        Some((k, v)) => if k.len() >= 7 && k.take(7) == "preset."@ {
            let name = k.skip(7);
            let f = parse_fields(split_char(v, ','));
            if f.len() == 8 && name.len() > 0 {
                SettingsModel { presets: st.presets.push(preset_from_fields(name, f)), ..st }
            } else {
                st
            }
        } else {
            apply_setting(st, k, v)
        },
    }
}

/// The effect of the lines `ls`, in order.
pub open spec fn apply_lines(st: SettingsModel, ls: Seq<Seq<char>>) -> SettingsModel
    decreases ls.len(),
{
    if ls.len() == 0 {
        st
    } else {
        apply_line(apply_lines(st, ls.drop_last()), ls.last())
    }
}

/// The interval and the click count fitted into their bounds.
pub open spec fn clamp_limits(st: SettingsModel) -> SettingsModel {
    SettingsModel {
        interval_ms: clamp_u64(st.interval_ms, INTERVAL_MIN, INTERVAL_MAX),
        times: clamp_u64(st.times, TIMES_MIN, TIMES_MAX),
        ..st
    }
}

/// The settings after reading the configuration text `text` over `st`.
pub open spec fn load_spec(st: SettingsModel, text: Seq<char>) -> SettingsModel {
    clamp_limits(apply_lines(st, lines_of(text)))
}

/// `st` without a current preset when that names no saved preset.
pub open spec fn forget_unsaved_current(st: SettingsModel) -> SettingsModel {
    match st.current_preset {
        Some(c) => if st.has_preset_named(c) {
            st
        } else {
            SettingsModel { current_preset: None, ..st }
        },
        None => st,
    }
}

// ---------------------------------------------------------------------------
// What the configuration text of some settings is
// ---------------------------------------------------------------------------

/// The line `k=v`.
pub open spec fn kv(k: Seq<char>, v: Seq<char>) -> Seq<char> {
    k + seq!['='] + v
}

pub open spec fn mode_word(mode: u8) -> Seq<char> {
    if mode == MODE_HOLD {
        "hold"@
    } else {
        "click"@
    }
}

pub open spec fn button_word(button: u8) -> Seq<char> {
    if button == BUTTON_RIGHT {
        "right"@
    } else {
        "left"@
    }
}

pub open spec fn repeat_word(repeat: u8) -> Seq<char> {
    if repeat == REPEAT_TIMES {
        "times"@
    } else if repeat == REPEAT_DURATION {
        "duration"@
    } else {
        "forever"@
    }
}

/// `hh:mm:ss`, each part with at least two digits.
pub open spec fn duration_value(h: u32, m: u32, s: u32) -> Seq<char> {
    decimal2(h as nat) + seq![':'] + decimal2(m as nat) + seq![':'] + decimal2(s as nat)
}

/// The eight numbers of a preset line, in order.
pub open spec fn preset_numbers(p: PresetModel) -> Seq<nat> {
    seq![
        p.mode as nat,
        p.button as nat,
        p.interval_ms as nat,
        p.repeat as nat,
        p.times as nat,
        p.dur_h as nat,
        p.dur_m as nat,
        p.dur_s as nat,
    ]
}

/// `preset.<name>=<mode>,<button>,<interval>,<repeat>,<times>,<h>,<m>,<s>`.
pub open spec fn preset_line(p: PresetModel) -> Seq<char> {
    kv("preset."@ + p.name, join_with(preset_numbers(p).map_values(|n: nat| decimal(n)), ','))
}

/// The setting lines of the configuration file of `st`, before the preset lines.
pub open spec fn head_lines(st: SettingsModel) -> Seq<Seq<char>> {
    seq![
        kv("mode"@, mode_word(st.mode)),
        kv("button"@, button_word(st.button)),
        kv("interval_ms"@, decimal(st.interval_ms as nat)),
        kv("repeat"@, repeat_word(st.repeat)),
        kv("times"@, decimal(st.times as nat)),
        kv("duration"@, duration_value(st.dur_h, st.dur_m, st.dur_s)),
        kv("hotkey"@, hotkey_name_spec(st.hotkey_index)),
        kv("ontop"@, decimal(st.on_top as nat)),
        kv(
            "current"@,
            match st.current_preset {
                Some(c) => c,
                None => Seq::empty(),
            },
        ),
    ]
}

/// The lines of the configuration file of `st`.
pub open spec fn settings_lines(st: SettingsModel) -> Seq<Seq<char>> {
    head_lines(st) + st.presets.map_values(|p: PresetModel| preset_line(p))
}

/// The configuration text of `st`.
pub open spec fn settings_text(st: SettingsModel) -> Seq<char> {
    join_lines(settings_lines(st))
}

pub proof fn lemma_join_lines_push(ls: Seq<Seq<char>>, l: Seq<char>)
    ensures
        join_lines(ls.push(l)) == join_lines(ls) + l + seq!['\n'],
{
    assert(ls.push(l).drop_last() =~= ls);
}

pub proof fn lemma_join_with_push(ps: Seq<Seq<char>>, p: Seq<char>, c: char)
    requires
        ps.len() >= 1,
    ensures
        join_with(ps.push(p), c) == join_with(ps, c) + seq![c] + p,
{
    assert(ps.push(p).drop_last() =~= ps);
}

// ---------------------------------------------------------------------------
// Reading a configuration text
// ---------------------------------------------------------------------------

/// `x.min(m)` for `u8`.
pub fn at_most_u8_exec(x: u8, m: u8) -> (r: u8)
    ensures
        r == at_most_u8(x, m),
{
    if x <= m {
        x
    } else {
        m
    }
}

/// `x.min(m)` for `u32`.
pub fn at_most_u32_exec(x: u32, m: u32) -> (r: u32)
    ensures
        r == at_most_u32(x, m),
{
    if x <= m {
        x
    } else {
        m
    }
}

/// `x.clamp(lo, hi)` for `u64`.
pub fn clamp_u64_exec(x: u64, lo: u64, hi: u64) -> (r: u64)
    requires
        lo <= hi,
    ensures
        r == clamp_u64(x, lo, hi),
{
    if x < lo {
        lo
    } else if x > hi {
        hi
    } else {
        x
    }
}

/// The numbers among the `','`-separated pieces of `v[start..end]`.
fn parse_field_list(v: &Vec<char>, start: usize, end: usize) -> (f: Vec<u64>)
    requires
        start <= end <= v@.len(),
    ensures
        f@ == parse_fields(split_char(v@.subrange(start as int, end as int), ',')),
{
    let mut f: Vec<u64> = Vec::new();
    let mut piece = start;
    let mut i = start;
    proof {
        assert(v@.subrange(start as int, start as int) =~= Seq::<char>::empty());
    }
    while i < end
        invariant
            start <= piece <= i <= end <= v@.len(),
            split_char(v@.subrange(start as int, i as int), ',').last() == v@.subrange(
                piece as int,
                i as int,
            ),
            f@ == parse_fields(split_char(v@.subrange(start as int, i as int), ',').drop_last()),
        decreases end - i,
    {
        let ghost sub = v@.subrange(start as int, i as int);
        let ghost next = v@.subrange(start as int, i + 1);
        proof {
            assert(next.drop_last() =~= sub);
            assert(next.last() == v@[i as int]);
            lemma_split_char_len(sub, ',');
        }
        let ghost p = split_char(sub, ',');
        if v[i] == ',' {
            let ghost before = f@;
            let n = parse_u64_range(v, piece, i);
            match n {
                Some(x) => f.push(x),
                None => {},
            }
            proof {
                assert(split_char(next, ',') == p.push(Seq::<char>::empty()));
                assert(p.push(Seq::<char>::empty()).drop_last() =~= p);
                assert(v@.subrange(i + 1, i + 1) =~= Seq::<char>::empty());
            }
            piece = i + 1;
        } else {
            proof {
                let q = p.update(p.len() - 1, p.last().push(v@[i as int]));
                assert(split_char(next, ',') == q);
                assert(q.drop_last() =~= p.drop_last());
                assert(q.last() =~= v@.subrange(piece as int, i + 1));
            }
        }
        i = i + 1;
    }
    let ghost all = v@.subrange(start as int, end as int);
    proof {
        lemma_split_char_len(all, ',');
    }
    let n = parse_u64_range(v, piece, end);
    match n {
        Some(x) => f.push(x),
        None => {},
    }
    f
}

/// `v[start..end]` read as a `u32`, or 0.
fn u32_or_zero_range(v: &Vec<char>, start: usize, end: usize) -> (r: u32)
    requires
        start <= end <= v@.len(),
    ensures
        r == u32_or_zero(v@.subrange(start as int, end as int)),
{
    match parse_u32_range(v, start, end) {
        Some(n) => n,
        None => 0,
    }
}

/// The hours, minutes and seconds of the `duration` value `v[start..end]`.
fn duration_parts_range(v: &Vec<char>, start: usize, end: usize) -> (r: (u32, u32, u32))
    requires
        start <= end <= v@.len(),
    ensures
        r == duration_parts(v@.subrange(start as int, end as int)),
{
    let ghost val = v@.subrange(start as int, end as int);
    let i1 = find_in_range(v, start, end, ':');
    if i1 == end {
        return (u32_or_zero_range(v, start, end), 0, 0);
    }
    proof {
        assert(val.take(i1 - start) =~= v@.subrange(start as int, i1 as int));
        assert(val.skip(i1 - start + 1) =~= v@.subrange(i1 + 1, end as int));
    }
    let i2 = find_in_range(v, i1 + 1, end, ':');
    if i2 == end {
        return (u32_or_zero_range(v, start, i1), u32_or_zero_range(v, i1 + 1, end), 0);
    }
    proof {
        let r = v@.subrange(i1 + 1, end as int);
        assert(r.take(i2 - i1 - 1) =~= v@.subrange(i1 + 1, i2 as int));
        assert(r.skip(i2 - i1) =~= v@.subrange(i2 + 1, end as int));
    }
    (
        u32_or_zero_range(v, start, i1),
        u32_or_zero_range(v, i1 + 1, i2),
        u32_or_zero_range(v, i2 + 1, end),
    )
}

/// The key index that the hotkey name `v[start..end]` stands for.
fn parse_fkey_range(v: &Vec<char>, start: usize, end: usize) -> (r: Option<usize>)
    requires
        start <= end <= v@.len(),
    ensures
        r == parse_fkey_spec(v@.subrange(start as int, end as int)),
{
    let ghost s = v@.subrange(start as int, end as int);
    if start == end || v[start] != 'F' {
        return None;
    }
    proof {
        assert(s.drop_first() =~= v@.subrange(start + 1, end as int));
    }
    match parse_u64_range(v, start + 1, end) {
        Some(n) => if 1 <= n && n <= 12 {
            Some((n - 1) as usize)
        } else {
            None
        },
        None => None,
    }
}

/// The index of a start/stop key name `F1` .. `F12`, from 0.
pub fn parse_fkey(s: &str) -> (r: Option<usize>)
    ensures
        r == parse_fkey_spec(s@),
{
    let v = chars_of(s);
    proof {
        assert(v@.subrange(0, v@.len() as int) =~= v@);
    }
    parse_fkey_range(&v, 0, v.len())
}

impl App {
    /// Reads the setting `v[ks..ke]=v[vs..ve]` (a key that is no preset key).
    fn apply_setting_range(&mut self, v: &Vec<char>, ks: usize, ke: usize, vs: usize, ve: usize)
        requires
            ks <= ke <= v@.len(),
            vs <= ve <= v@.len(),
        ensures
            final(self).settings() == apply_setting(
                old(self).settings(),
                v@.subrange(ks as int, ke as int),
                v@.subrange(vs as int, ve as int),
            ),
            final(self).same_window_state(old(self)),
            final(self).presets@ == old(self).presets@,
    {
        if range_equals(v, ks, ke, "mode") {
            self.mode = if range_equals(v, vs, ve, "hold") {
                MODE_HOLD
            } else {
                MODE_CLICK
            };
        } else if range_equals(v, ks, ke, "button") {
            self.button = if range_equals(v, vs, ve, "right") {
                BUTTON_RIGHT
            } else {
                BUTTON_LEFT
            };
        } else if range_equals(v, ks, ke, "interval_ms") {
            match parse_u64_range(v, vs, ve) {
                Some(n) => self.interval_ms = n,
                None => {},
            }
        } else if range_equals(v, ks, ke, "forever") {
            self.repeat = if range_equals(v, vs, ve, "1") {
                REPEAT_FOREVER
            } else {
                REPEAT_TIMES
            };
        } else if range_equals(v, ks, ke, "repeat") {
            self.repeat = if range_equals(v, vs, ve, "times") {
                REPEAT_TIMES
            } else if range_equals(v, vs, ve, "duration") {
                REPEAT_DURATION
            } else {
                REPEAT_FOREVER
            };
        } else if range_equals(v, ks, ke, "times") {
            match parse_u64_range(v, vs, ve) {
                Some(n) => self.times = n,
                None => {},
            }
        } else if range_equals(v, ks, ke, "duration") {
            let (h, m, s) = duration_parts_range(v, vs, ve);
            self.dur_h = at_most_u32_exec(h, HOURS_MAX);
            self.dur_m = at_most_u32_exec(m, MINUTES_MAX);
            self.dur_s = at_most_u32_exec(s, SECONDS_MAX);
        } else if range_equals(v, ks, ke, "hotkey") {
            match parse_fkey_range(v, vs, ve) {
                Some(i) => self.hotkey_index = i,
                None => {},
            }
        } else if range_equals(v, ks, ke, "ontop") {
            self.on_top = if range_equals(v, vs, ve, "1") {
                TOP_ALWAYS
            } else if range_equals(v, vs, ve, "2") {
                TOP_WHILE_RUNNING
            } else {
                TOP_OFF
            };
        } else if range_equals(v, ks, ke, "current") {
            if vs < ve {
                self.current_preset = Some(string_of_range(v, vs, ve));
            }
        }
    }

    /// Reads one line `v[start..end]` of the configuration file.
    fn apply_line_range(&mut self, v: &Vec<char>, start: usize, end: usize)
        requires
            start <= end <= v@.len(),
        ensures
            final(self).settings() == apply_line(
                old(self).settings(),
                v@.subrange(start as int, end as int),
            ),
            final(self).same_window_state(old(self)),
    {
        let ghost line = v@.subrange(start as int, end as int);
        let eq = find_in_range(v, start, end, '=');
        if eq == end {
            return;
        }
        let ghost k = v@.subrange(start as int, eq as int);
        proof {
            assert(line.take(eq - start) =~= k);
            assert(line.skip(eq - start + 1) =~= v@.subrange(eq + 1, end as int));
        }
        if eq - start >= 7 && range_equals(v, start, start + 7, "preset.") {
            proof {
                assert(k.take(7) =~= v@.subrange(start as int, start + 7));
                assert(k.skip(7) =~= v@.subrange(start + 7, eq as int));
            }
            let f = parse_field_list(v, eq + 1, end);
            if f.len() == 8 && eq > start + 7 {
                let name = string_of_range(v, start + 7, eq);
                let p = Preset {
                    name,
                    mode: at_most_u8_exec(f[0] as u8, 1),
                    button: at_most_u8_exec(f[1] as u8, 1),
                    interval_ms: clamp_u64_exec(f[2], INTERVAL_MIN, INTERVAL_MAX),
                    repeat: at_most_u8_exec(f[3] as u8, 2),
                    times: clamp_u64_exec(f[4], TIMES_MIN, TIMES_MAX),
                    dur_h: at_most_u32_exec(f[5] as u32, HOURS_MAX),
                    dur_m: at_most_u32_exec(f[6] as u32, MINUTES_MAX),
                    dur_s: at_most_u32_exec(f[7] as u32, SECONDS_MAX),
                };
                let ghost before = self.presets@;
                self.presets.push(p);
                proof {
                    assert(self.presets@.map_values(|q: Preset| q@) =~= before.map_values(
                        |q: Preset| q@,
                    ).push(p@));
                }
            }
        } else {
            self.apply_setting_range(v, start, eq, eq + 1, end);
        }
    }

    /// Reads the configuration text `text` over the current settings, then
    /// fits the interval and the click count into their bounds.
    pub fn load_settings(&mut self, text: &str)
        ensures
            final(self).settings() == load_spec(old(self).settings(), text@),
            final(self).same_window_state(old(self)),
    {
        let v = chars_of(text);
        let ghost st0 = self.settings();
        let mut line_start: usize = 0;
        let mut i: usize = 0;
        proof {
            assert(v@.subrange(0, 0) =~= Seq::<char>::empty());
            assert(v@.take(0) =~= Seq::<char>::empty());
        }
        while i < v.len()
            invariant
                line_start <= i <= v@.len(),
                v@ == text@,
                split_char(v@.take(i as int), '\n').last() == v@.subrange(line_start as int, i as int),
                self.settings() == apply_lines(
                    st0,
                    split_char(v@.take(i as int), '\n').drop_last().map_values(
                        |l: Seq<char>| strip_cr(l),
                    ),
                ),
                self.same_window_state(old(self)),
            decreases v@.len() - i,
        {
            let ghost sub = v@.take(i as int);
            let ghost next = v@.take(i + 1);
            proof {
                assert(next.drop_last() =~= sub);
                assert(next.last() == v@[i as int]);
                lemma_split_char_len(sub, '\n');
            }
            let ghost p = split_char(sub, '\n');
            if v[i] == '\n' {
                let mut line_end = i;
                if line_end > line_start && v[line_end - 1] == '\r' {
                    line_end = line_end - 1;
                }
                proof {
                    let l = v@.subrange(line_start as int, i as int);
                    assert(strip_cr(l) =~= v@.subrange(line_start as int, line_end as int));
                }
                self.apply_line_range(&v, line_start, line_end);
                proof {
                    let f = |l: Seq<char>| strip_cr(l);
                    assert(split_char(next, '\n') == p.push(Seq::<char>::empty()));
                    assert(p.push(Seq::<char>::empty()).drop_last() =~= p);
                    assert(p.map_values(f) =~= p.drop_last().map_values(f).push(f(p.last())));
                    assert(p.map_values(f).drop_last() =~= p.drop_last().map_values(f));
                    assert(v@.subrange(i + 1, i + 1) =~= Seq::<char>::empty());
                }
                line_start = i + 1;
            } else {
                proof {
                    let q = p.update(p.len() - 1, p.last().push(v@[i as int]));
                    assert(split_char(next, '\n') == q);
                    assert(q.drop_last() =~= p.drop_last());
                    assert(q.last() =~= v@.subrange(line_start as int, i + 1));
                }
            }
            i = i + 1;
        }
        proof {
            assert(v@.take(v@.len() as int) =~= v@);
            lemma_split_char_len(v@, '\n');
        }
        if line_start < v.len() {
            proof {
                let p = split_char(v@, '\n');
                let f = |l: Seq<char>| strip_cr(l);
                let ended = p.drop_last().map_values(f);
                assert(ended.push(p.last()).drop_last() =~= ended);
            }
            self.apply_line_range(&v, line_start, v.len());
        }
        self.interval_ms = clamp_u64_exec(self.interval_ms, INTERVAL_MIN, INTERVAL_MAX);
        self.times = clamp_u64_exec(self.times, TIMES_MIN, TIMES_MAX);
    }
}


/// Appends `k=`.
fn push_key(s: &mut String, k: &str)
    ensures
        final(s)@ == old(s)@ + k@ + seq!['='],
{
    push_str(s, k);
    push_char(s, '=');
}

/// Appends the line of a preset, without its line break.
fn push_preset_line(s: &mut String, p: &Preset)
    ensures
        final(s)@ == old(s)@ + preset_line(p@),
{
    let ghost before = s@;
    push_str(s, "preset.");
    push_str(s, p.name.as_str());
    push_char(s, '=');
    let mut nums: Vec<u64> = Vec::new();
    nums.push(p.mode as u64);
    nums.push(p.button as u64);
    nums.push(p.interval_ms);
    nums.push(p.repeat as u64);
    nums.push(p.times);
    nums.push(p.dur_h as u64);
    nums.push(p.dur_m as u64);
    nums.push(p.dur_s as u64);
    let ghost fields = preset_numbers(p@).map_values(|n: nat| decimal(n));
    let ghost head = s@;
    assert(nums@.map_values(|n: u64| n as nat) =~= preset_numbers(p@));
    let mut j: usize = 0;
    while j < 8
        invariant
            j <= 8,
            nums@.len() == 8,
            nums@.map_values(|n: u64| n as nat) == preset_numbers(p@),
            fields == preset_numbers(p@).map_values(|n: nat| decimal(n)),
            j == 0 ==> s@ == head,
            j > 0 ==> s@ == head + join_with(fields.take(j as int), ','),
        decreases 8 - j,
    {
        if j > 0 {
            push_char(s, ',');
        }
        push_decimal(s, nums[j]);
        proof {
            assert(fields[j as int] == decimal(nums@[j as int] as nat));
            if j == 0 {
                assert(fields.take(1) =~= seq![fields[0]]);
            } else {
                lemma_join_with_push(fields.take(j as int), fields[j as int], ',');
                assert(fields.take(j as int).push(fields[j as int]) =~= fields.take(j + 1));
            }
        }
        j = j + 1;
    }
    assert(fields.take(8) =~= fields);
}

/// Appending a line and a line break to joined lines joins one more line.
proof fn lemma_append_line(prefix: Seq<char>, done: Seq<Seq<char>>, s: Seq<char>, l: Seq<char>)
    requires
        s == prefix + join_lines(done),
    ensures
        s + l + seq!['\n'] == prefix + join_lines(done.push(l)),
{
    lemma_join_lines_push(done, l);
    assert(s + l + seq!['\n'] =~= prefix + (join_lines(done) + l + seq!['\n']));
}

/// Appends the line `k=v` and a line break.
fn push_line(s: &mut String, k: &str, v: &str)
    ensures
        final(s)@ == old(s)@ + kv(k@, v@) + seq!['\n'],
{
    let ghost before = s@;
    push_key(s, k);
    push_str(s, v);
    push_char(s, '\n');
    assert(s@ =~= before + kv(k@, v@) + seq!['\n']);
}

/// Appends the line `k=<n>` and a line break.
fn push_number_line(s: &mut String, k: &str, n: u64)
    ensures
        final(s)@ == old(s)@ + kv(k@, decimal(n as nat)) + seq!['\n'],
{
    let ghost before = s@;
    push_key(s, k);
    push_decimal(s, n);
    push_char(s, '\n');
    assert(s@ =~= before + kv(k@, decimal(n as nat)) + seq!['\n']);
}

/// Appends the line `duration=hh:mm:ss` and a line break.
fn push_duration_line(s: &mut String, h: u32, m: u32, sec: u32)
    ensures
        final(s)@ == old(s)@ + kv("duration"@, duration_value(h, m, sec)) + seq!['\n'],
{
    let ghost before = s@;
    push_key(s, "duration");
    push_decimal2(s, h as u64);
    push_char(s, ':');
    push_decimal2(s, m as u64);
    push_char(s, ':');
    push_decimal2(s, sec as u64);
    push_char(s, '\n');
    assert(s@ =~= before + kv("duration"@, duration_value(h, m, sec)) + seq!['\n']);
}

impl App {
    /// Appends the setting lines, each followed by a line break.
    fn push_head_lines(&self, s: &mut String)
        requires
            self.hotkey_index < usize::MAX,
        ensures
            final(s)@ == old(s)@ + join_lines(head_lines(self.settings())),
    {
        let ghost lines = head_lines(self.settings());
        let ghost start = s@;
        let ghost mut done: Seq<Seq<char>> = Seq::empty();
        assert(s@ =~= start + join_lines(done));
        let ghost cur = s@;
        push_line(s, "mode", if self.mode == MODE_HOLD { "hold" } else { "click" });
        proof {
            lemma_append_line(start, done, cur, lines[0]);
            done = done.push(lines[0]);
        }
        let ghost cur = s@;
        push_line(s, "button", if self.button == BUTTON_RIGHT { "right" } else { "left" });
        proof {
            lemma_append_line(start, done, cur, lines[1]);
            done = done.push(lines[1]);
        }
        let ghost cur = s@;
        push_number_line(s, "interval_ms", self.interval_ms);
        proof {
            lemma_append_line(start, done, cur, lines[2]);
            done = done.push(lines[2]);
        }
        let ghost cur = s@;
        push_line(
            s,
            "repeat",
            if self.repeat == REPEAT_TIMES {
                "times"
            } else if self.repeat == REPEAT_DURATION {
                "duration"
            } else {
                "forever"
            },
        );
        proof {
            lemma_append_line(start, done, cur, lines[3]);
            done = done.push(lines[3]);
        }
        let ghost cur = s@;
        push_number_line(s, "times", self.times);
        proof {
            lemma_append_line(start, done, cur, lines[4]);
            done = done.push(lines[4]);
        }
        let ghost cur = s@;
        push_duration_line(s, self.dur_h, self.dur_m, self.dur_s);
        proof {
            lemma_append_line(start, done, cur, lines[5]);
            done = done.push(lines[5]);
        }
        let name = self.hotkey_name();
        let ghost cur = s@;
        push_line(s, "hotkey", name.as_str());
        proof {
            lemma_append_line(start, done, cur, lines[6]);
            done = done.push(lines[6]);
        }
        let ghost cur = s@;
        push_number_line(s, "ontop", self.on_top as u64);
        proof {
            lemma_append_line(start, done, cur, lines[7]);
            done = done.push(lines[7]);
        }
        let ghost cur = s@;
        match &self.current_preset {
            Some(c) => push_line(s, "current", c.as_str()),
            None => push_line(s, "current", ""),
        }
        proof {
            reveal_strlit("");
            lemma_append_line(start, done, cur, lines[8]);
            done = done.push(lines[8]);
            assert(done =~= lines);
        }
    }

    /// The configuration text of the current settings.
    pub fn settings_string(&self) -> (s: String)
        requires
            self.hotkey_index < usize::MAX,
        ensures
            s@ == settings_text(self.settings()),
    {
        let ghost st = self.settings();
        let ghost lines = settings_lines(st);
        let mut s = String::new();
        self.push_head_lines(&mut s);
        proof {
            assert(lines.take(9) =~= head_lines(st));
            assert(s@ =~= join_lines(lines.take(9)));
        }
        let mut i: usize = 0;
        while i < self.presets.len()
            invariant
                i <= self.presets@.len(),
                st == self.settings(),
                lines == settings_lines(st),
                lines.len() == 9 + self.presets@.len(),
                s@ == join_lines(lines.take(9 + i)),
            decreases self.presets@.len() - i,
        {
            push_preset_line(&mut s, &self.presets[i]);
            push_char(&mut s, '\n');
            proof {
                assert(lines[9 + i] == preset_line(self.presets@[i as int]@));
                lemma_join_lines_push(lines.take(9 + i), lines[9 + i]);
                assert(lines.take(9 + i).push(lines[9 + i]) =~= lines.take(9 + i + 1));
            }
            i = i + 1;
        }
        proof {
            assert(lines.take(9 + i) =~= lines);
        }
        s
    }
}

/// Reading lines keeps the hotkey index among F1 .. F12.
proof fn lemma_apply_lines_hotkey(st: SettingsModel, ls: Seq<Seq<char>>)
    requires
        st.hotkey_index < 12,
    ensures
        apply_lines(st, ls).hotkey_index < 12,
    decreases ls.len(),
{
    if ls.len() > 0 {
        lemma_apply_lines_hotkey(st, ls.drop_last());
    }
}

impl App {
    /// The state at start-up: the default settings, overridden by the
    /// configuration text `config` when there is one; a current preset that
    /// names no saved preset is forgotten, and the text that would be saved
    /// now is remembered as saved.
    pub fn new(config: Option<&str>) -> (app: App)
        ensures
            app.settings() == forget_unsaved_current(
                match config {
                    Some(t) => load_spec(default_settings(), t@),
                    None => default_settings(),
                },
            ),
            app.new_preset_name@ == Seq::<char>::empty(),
            !app.advanced_open,
            app.saved@ == settings_text(app.settings()),
    {
        let mut app = App {
            mode: MODE_CLICK,
            button: BUTTON_LEFT,
            interval_ms: 100,
            repeat: REPEAT_FOREVER,
            times: 100,
            dur_h: 0,
            dur_m: 1,
            dur_s: 0,
            hotkey_index: 8,
            on_top: TOP_OFF,
            presets: Vec::new(),
            current_preset: None,
            new_preset_name: String::new(),
            advanced_open: false,
            saved: String::new(),
        };
        assert(app.settings().presets =~= Seq::<PresetModel>::empty());
        assert(app.settings() =~= default_settings());
        match config {
            Some(text) => {
                app.load_settings(text);
                proof {
                    lemma_apply_lines_hotkey(default_settings(), lines_of(text@));
                }
            },
            None => {},
        }
        let ghost loaded = app.settings();
        let forget = match &app.current_preset {
            Some(c) => {
                let found = app.find_preset(c);
                proof {
                    if let Some(i) = found {
                        assert(loaded.presets[i as int].name == c@);
                    }
                }
                found.is_none()
            },
            None => false,
        };
        if forget {
            app.current_preset = None;
        }
        assert(app.settings() =~= forget_unsaved_current(loaded));
        app.saved = app.settings_string();
        app
    }
}

} // verus!
