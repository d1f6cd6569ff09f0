//! What reading the configuration file gives back of what writing it wrote.

use vstd::prelude::*;

use crate::config::{
    apply_line, apply_lines, apply_setting, clamp_limits, duration_parts, duration_value, forget_unsaved_current, head_lines, kv, load_spec,
    mode_word, button_word, parse_fields, parse_fkey_spec, preset_from_fields, preset_line,
    preset_numbers, repeat_word, settings_lines, settings_text, split_once, u32_or_zero,
};
use crate::settings::{
    default_settings, hotkey_name_spec, PresetModel, SettingsModel, HOURS_MAX,
    INTERVAL_MAX, INTERVAL_MIN, MINUTES_MAX, SECONDS_MAX, TIMES_MAX, TIMES_MIN,
};
use crate::text::{
    decimal, decimal2, is_digit, join_with, lacks_char, lemma_decimal_lacks, lemma_find_char, lemma_join_with_lacks, lemma_lacks_concat,
    lemma_lines_of_join_lines, lemma_parse_decimal, lemma_split_join_with, parse_u64_spec, split_char,
};

verus! {

// ---------------------------------------------------------------------------
// Settings that the configuration file can hold
// ---------------------------------------------------------------------------

/// A name that a line of the configuration file can hold and give back.
pub open spec fn storable_name(n: Seq<char>) -> bool {
    &&& n.len() > 0
    &&& lacks_char(n, '=')
    &&& lacks_char(n, '\n')
    &&& lacks_char(n, '\r')
}

/// A preset whose line reads back as the preset itself.
pub open spec fn preset_storable(p: PresetModel) -> bool {
    &&& storable_name(p.name)
    &&& p.mode <= 1
    &&& p.button <= 1
    &&& INTERVAL_MIN <= p.interval_ms <= INTERVAL_MAX
    &&& p.repeat <= 2
    &&& TIMES_MIN <= p.times <= TIMES_MAX
    &&& p.dur_h <= HOURS_MAX
    &&& p.dur_m <= MINUTES_MAX
    &&& p.dur_s <= SECONDS_MAX
}

impl SettingsModel {
    /// Settings within the bounds that the settings window and the reader
    /// keep, with names that a line can hold.
    pub open spec fn storable(self) -> bool {
        &&& self.mode <= 1
        &&& self.button <= 1
        &&& INTERVAL_MIN <= self.interval_ms <= INTERVAL_MAX
        &&& self.repeat <= 2
        &&& TIMES_MIN <= self.times <= TIMES_MAX
        &&& self.dur_h <= HOURS_MAX
        &&& self.dur_m <= MINUTES_MAX
        &&& self.dur_s <= SECONDS_MAX
        &&& self.hotkey_index < 12
        &&& self.on_top <= 2
        &&& forall|i: int| 0 <= i < self.presets.len() ==> preset_storable(#[trigger] self.presets[i])
        &&& match self.current_preset {
            Some(c) => storable_name(c),
            None => true,
        }
    }
}

/// `st` with the presets `ps`.
pub open spec fn with_presets(st: SettingsModel, ps: Seq<PresetModel>) -> SettingsModel {
    SettingsModel { presets: ps, ..st }
}

// ---------------------------------------------------------------------------
// Lemmas on single lines
// ---------------------------------------------------------------------------

/// A line `k=v` splits at its first `'='` into `k` and `v` when `k` holds none.
proof fn lemma_split_kv(k: Seq<char>, v: Seq<char>)
    requires
        lacks_char(k, '='),
    ensures
        split_once(kv(k, v), '=') == Some((k, v)),
{
    let l = kv(k, v);
    assert forall|j: int| 0 <= j < k.len() implies l[j] != '=' by {
        assert(l[j] == k[j]);
    }
    lemma_find_char(l, '=', k.len() as int);
    assert(l.take(k.len() as int) =~= k);
    assert(l.skip(k.len() + 1int) =~= v);
}

/// The effect of a setting line whose key is no preset key.
proof fn lemma_setting_line(st: SettingsModel, k: Seq<char>, v: Seq<char>)
    requires
        lacks_char(k, '='),
        k.len() < 7 || k.take(7) != "preset."@,
    ensures
        apply_line(st, kv(k, v)) == apply_setting(st, k, v),
{
    lemma_split_kv(k, v);
}

proof fn lemma_parse_u64(n: u64)
    ensures
        parse_u64_spec(decimal(n as nat)) == Some(n),
{
    lemma_parse_decimal(n as nat);
}

proof fn lemma_u32_or_zero(n: u32)
    ensures
        u32_or_zero(decimal2(n as nat)) == n,
{
    lemma_parse_decimal(n as nat);
}

/// The three parts of a written duration read back as the duration.
proof fn lemma_duration_parts(h: u32, m: u32, s: u32)
    ensures
        duration_parts(duration_value(h, m, s)) == (h, m, s),
{
    let dh = decimal2(h as nat);
    let dm = decimal2(m as nat);
    let ds = decimal2(s as nat);
    let v = duration_value(h, m, s);
    assert(!is_digit(':'));
    lemma_decimal_lacks(h as nat, ':');
    lemma_decimal_lacks(m as nat, ':');
    lemma_decimal_lacks(s as nat, ':');
    assert forall|j: int| 0 <= j < dh.len() implies v[j] != ':' by {
        assert(v[j] == dh[j]);
    }
    assert(v[dh.len() as int] == ':');
    lemma_find_char(v, ':', dh.len() as int);
    assert(v.take(dh.len() as int) =~= dh);
    let r = v.skip(dh.len() + 1int);
    assert(r =~= dm + seq![':'] + ds);
    assert forall|j: int| 0 <= j < dm.len() implies r[j] != ':' by {
        assert(r[j] == dm[j]);
    }
    assert(r[dm.len() as int] == ':');
    lemma_find_char(r, ':', dm.len() as int);
    assert(r.take(dm.len() as int) =~= dm);
    assert(r.skip(dm.len() + 1int) =~= ds);
    lemma_u32_or_zero(h);
    lemma_u32_or_zero(m);
    lemma_u32_or_zero(s);
}

/// The name of a start/stop key reads back as its index.
pub proof fn lemma_hotkey_name_round_trip(i: usize)
    requires
        i < 12,
    ensures
        parse_fkey_spec(hotkey_name_spec(i)) == Some(i),
{
    let n = hotkey_name_spec(i);
    assert(n.drop_first() =~= decimal((i + 1) as nat));
    lemma_parse_decimal((i + 1) as nat);
}

/// The numbers of a preset line read back as the numbers.
proof fn lemma_parse_fields(ns: Seq<nat>)
    requires
        forall|i: int| 0 <= i < ns.len() ==> #[trigger] ns[i] <= u64::MAX,
    ensures
        parse_fields(ns.map_values(|n: nat| decimal(n))) == ns.map_values(|n: nat| n as u64),
    decreases ns.len(),
{
    let ds = ns.map_values(|n: nat| decimal(n));
    if ns.len() > 0 {
        let n2 = ns.drop_last();
        lemma_parse_fields(n2);
        assert(ds.drop_last() =~= n2.map_values(|n: nat| decimal(n)));
        lemma_parse_decimal(ns.last());
        assert(ns.map_values(|n: nat| n as u64) =~= n2.map_values(|n: nat| n as u64).push(
            ns.last() as u64,
        ));
    } else {
        assert(ds =~= Seq::<Seq<char>>::empty());
        assert(ns.map_values(|n: nat| n as u64) =~= Seq::<u64>::empty());
    }
}

/// A preset line adds the preset it was written from.
proof fn lemma_preset_line(st: SettingsModel, p: PresetModel)
    requires
        preset_storable(p),
    ensures
        apply_line(st, preset_line(p)) == with_presets(st, st.presets.push(p)),
{
    reveal_strlit("preset.");
    let key = "preset."@ + p.name;
    let ns = preset_numbers(p);
    let ds = ns.map_values(|n: nat| decimal(n));
    lemma_lacks_concat("preset."@, p.name, '=');
    lemma_split_kv(key, join_with(ds, ','));
    assert(key.take(7) =~= "preset."@);
    assert(key.skip(7) =~= p.name);
    assert forall|i: int| 0 <= i < ds.len() implies lacks_char(#[trigger] ds[i], ',') by {
        lemma_decimal_lacks(ns[i], ',');
    }
    lemma_split_join_with(ds, ',');
    lemma_parse_fields(ns);
    let f = parse_fields(split_char(join_with(ds, ','), ','));
    assert(f == ns.map_values(|n: nat| n as u64));
    assert(f.len() == 8);
    assert(preset_from_fields(p.name, f) =~= p);
}

/// Preset lines add their presets, in order.
proof fn lemma_preset_lines(st: SettingsModel, ps: Seq<PresetModel>)
    requires
        forall|i: int| 0 <= i < ps.len() ==> preset_storable(#[trigger] ps[i]),
    ensures
        apply_lines(st, ps.map_values(|p: PresetModel| preset_line(p))) == with_presets(
            st,
            st.presets + ps,
        ),
    decreases ps.len(),
{
    let ls = ps.map_values(|p: PresetModel| preset_line(p));
    if ps.len() == 0 {
        assert(ls.len() == 0);
        assert(st.presets + ps =~= st.presets);
        assert(with_presets(st, st.presets + ps) =~= st);
    } else {
        let p2 = ps.drop_last();
        lemma_preset_lines(st, p2);
        assert(ls.drop_last() =~= p2.map_values(|p: PresetModel| preset_line(p)));
        assert(preset_storable(ps[ps.len() - 1]));
        let mid = with_presets(st, st.presets + p2);
        lemma_preset_line(mid, ps.last());
        assert((st.presets + p2).push(ps.last()) =~= st.presets + ps);
    }
}

proof fn lemma_apply_lines_push(st: SettingsModel, ls: Seq<Seq<char>>, l: Seq<char>)
    ensures
        apply_lines(st, ls.push(l)) == apply_line(apply_lines(st, ls), l),
{
    assert(ls.push(l).drop_last() =~= ls);
}

/// Reading two runs of lines is reading the first, then the second.
proof fn lemma_apply_lines_concat(st: SettingsModel, a: Seq<Seq<char>>, b: Seq<Seq<char>>)
    ensures
        apply_lines(st, a + b) == apply_lines(apply_lines(st, a), b),
    decreases b.len(),
{
    if b.len() == 0 {
        assert(a + b =~= a);
    } else {
        lemma_apply_lines_concat(st, a, b.drop_last());
        assert((a + b).drop_last() =~= a + b.drop_last());
        assert((a + b).last() == b.last());
    }
}

// ---------------------------------------------------------------------------
// The setting lines
// ---------------------------------------------------------------------------

/// The characters of the words that the configuration file uses.
proof fn lemma_words()
    ensures
        "mode"@ == seq!['m', 'o', 'd', 'e'],
        "button"@ == seq!['b', 'u', 't', 't', 'o', 'n'],
        "interval_ms"@ == seq!['i', 'n', 't', 'e', 'r', 'v', 'a', 'l', '_', 'm', 's'],
        "forever"@ == seq!['f', 'o', 'r', 'e', 'v', 'e', 'r'],
        "repeat"@ == seq!['r', 'e', 'p', 'e', 'a', 't'],
        "times"@ == seq!['t', 'i', 'm', 'e', 's'],
        "duration"@ == seq!['d', 'u', 'r', 'a', 't', 'i', 'o', 'n'],
        "hotkey"@ == seq!['h', 'o', 't', 'k', 'e', 'y'],
        "ontop"@ == seq!['o', 'n', 't', 'o', 'p'],
        "current"@ == seq!['c', 'u', 'r', 'r', 'e', 'n', 't'],
        "preset."@ == seq!['p', 'r', 'e', 's', 'e', 't', '.'],
        "hold"@ == seq!['h', 'o', 'l', 'd'],
        "click"@ == seq!['c', 'l', 'i', 'c', 'k'],
        "right"@ == seq!['r', 'i', 'g', 'h', 't'],
        "left"@ == seq!['l', 'e', 'f', 't'],
        "1"@ == seq!['1'],
        "2"@ == seq!['2'],
{
    reveal_strlit("mode");
    reveal_strlit("button");
    reveal_strlit("interval_ms");
    reveal_strlit("forever");
    reveal_strlit("repeat");
    reveal_strlit("times");
    reveal_strlit("duration");
    reveal_strlit("hotkey");
    reveal_strlit("ontop");
    reveal_strlit("current");
    reveal_strlit("preset.");
    reveal_strlit("hold");
    reveal_strlit("click");
    reveal_strlit("right");
    reveal_strlit("left");
    reveal_strlit("1");
    reveal_strlit("2");
}


proof fn lemma_mode_line(st: SettingsModel, mode: u8)
    requires
        mode <= 1,
    ensures
        apply_line(st, kv("mode"@, mode_word(mode))) == (SettingsModel { mode: mode, ..st }),
{
    lemma_words();
    lemma_setting_line(st, "mode"@, mode_word(mode));
}

proof fn lemma_button_line(st: SettingsModel, button: u8)
    requires
        button <= 1,
    ensures
        apply_line(st, kv("button"@, button_word(button))) == (SettingsModel { button: button, ..st }),
{
    lemma_words();
    lemma_setting_line(st, "button"@, button_word(button));
}

proof fn lemma_interval_line(st: SettingsModel, n: u64)
    ensures
        apply_line(st, kv("interval_ms"@, decimal(n as nat))) == (SettingsModel {
            interval_ms: n,
            ..st
        }),
{
    lemma_words();
    assert("interval_ms"@.take(7)[0] != "preset."@[0]);
    lemma_setting_line(st, "interval_ms"@, decimal(n as nat));
    lemma_parse_u64(n);
}

proof fn lemma_repeat_line(st: SettingsModel, repeat: u8)
    requires
        repeat <= 2,
    ensures
        apply_line(st, kv("repeat"@, repeat_word(repeat))) == (SettingsModel { repeat: repeat, ..st }),
{
    lemma_words();
    lemma_setting_line(st, "repeat"@, repeat_word(repeat));
}

proof fn lemma_times_line(st: SettingsModel, n: u64)
    ensures
        apply_line(st, kv("times"@, decimal(n as nat))) == (SettingsModel { times: n, ..st }),
{
    lemma_words();
    lemma_setting_line(st, "times"@, decimal(n as nat));
    lemma_parse_u64(n);
}

proof fn lemma_duration_line(st: SettingsModel, h: u32, m: u32, sec: u32)
    requires
        h <= HOURS_MAX,
        m <= MINUTES_MAX,
        sec <= SECONDS_MAX,
    ensures
        apply_line(st, kv("duration"@, duration_value(h, m, sec))) == (SettingsModel {
            dur_h: h,
            dur_m: m,
            dur_s: sec,
            ..st
        }),
{
    lemma_words();
    assert("duration"@.take(7)[0] != "preset."@[0]);
    lemma_setting_line(st, "duration"@, duration_value(h, m, sec));
    lemma_duration_parts(h, m, sec);
}

proof fn lemma_hotkey_line(st: SettingsModel, i: usize)
    requires
        i < 12,
    ensures
        apply_line(st, kv("hotkey"@, hotkey_name_spec(i))) == (SettingsModel {
            hotkey_index: i,
            ..st
        }),
{
    lemma_words();
    lemma_setting_line(st, "hotkey"@, hotkey_name_spec(i));
    lemma_hotkey_name_round_trip(i);
}

proof fn lemma_ontop_line(st: SettingsModel, on_top: u8)
    requires
        on_top <= 2,
    ensures
        apply_line(st, kv("ontop"@, decimal(on_top as nat))) == (SettingsModel {
            on_top: on_top,
            ..st
        }),
{
    lemma_words();
    lemma_setting_line(st, "ontop"@, decimal(on_top as nat));
    assert(decimal(0) =~= seq!['0']);
    assert(decimal(1) =~= seq!['1']);
    assert(decimal(2) =~= seq!['2']);
    let v = decimal(on_top as nat);
    if on_top == 0 {
        assert(v != "1"@ && v != "2"@);
    } else if on_top == 1 {
        assert(v == "1"@);
    } else {
        assert(v != "1"@ && v == "2"@);
    }
}

proof fn lemma_current_line(st: SettingsModel, c: Option<Seq<char>>)
    requires
        st.current_preset is None,
        match c {
            Some(n) => n.len() > 0,
            None => true,
        },
    ensures
        apply_line(
            st,
            kv(
                "current"@,
                match c {
                    Some(n) => n,
                    None => Seq::empty(),
                },
            ),
        ) == (SettingsModel { current_preset: c, ..st }),
{
    lemma_words();
    let v = match c {
        Some(n) => n,
        None => Seq::<char>::empty(),
    };
    assert("current"@.take(7)[0] != "preset."@[0]);
    lemma_setting_line(st, "current"@, v);
}

/// The setting lines give back the settings, on a fresh start.
proof fn lemma_head_lines(st: SettingsModel)
    requires
        st.storable(),
    ensures
        apply_lines(default_settings(), head_lines(st)) == with_presets(st, Seq::empty()),
{
    let h = head_lines(st);
    let d = default_settings();
    assert(h.take(0) =~= Seq::<Seq<char>>::empty());
    lemma_apply_lines_push(d, h.take(0), h[0]);
    assert(h.take(0).push(h[0]) =~= h.take(1));
    lemma_mode_line(d, st.mode);
    let s1 = SettingsModel { mode: st.mode, ..d };
    lemma_apply_lines_push(d, h.take(1), h[1]);
    assert(h.take(1).push(h[1]) =~= h.take(2));
    lemma_button_line(s1, st.button);
    let s2 = SettingsModel { button: st.button, ..s1 };
    lemma_apply_lines_push(d, h.take(2), h[2]);
    assert(h.take(2).push(h[2]) =~= h.take(3));
    lemma_interval_line(s2, st.interval_ms);
    let s3 = SettingsModel { interval_ms: st.interval_ms, ..s2 };
    lemma_apply_lines_push(d, h.take(3), h[3]);
    assert(h.take(3).push(h[3]) =~= h.take(4));
    lemma_repeat_line(s3, st.repeat);
    let s4 = SettingsModel { repeat: st.repeat, ..s3 };
    lemma_apply_lines_push(d, h.take(4), h[4]);
    assert(h.take(4).push(h[4]) =~= h.take(5));
    lemma_times_line(s4, st.times);
    let s5 = SettingsModel { times: st.times, ..s4 };
    lemma_apply_lines_push(d, h.take(5), h[5]);
    assert(h.take(5).push(h[5]) =~= h.take(6));
    lemma_duration_line(s5, st.dur_h, st.dur_m, st.dur_s);
    let s6 = SettingsModel { dur_h: st.dur_h, dur_m: st.dur_m, dur_s: st.dur_s, ..s5 };
    lemma_apply_lines_push(d, h.take(6), h[6]);
    assert(h.take(6).push(h[6]) =~= h.take(7));
    lemma_hotkey_line(s6, st.hotkey_index);
    let s7 = SettingsModel { hotkey_index: st.hotkey_index, ..s6 };
    lemma_apply_lines_push(d, h.take(7), h[7]);
    assert(h.take(7).push(h[7]) =~= h.take(8));
    lemma_ontop_line(s7, st.on_top);
    let s8 = SettingsModel { on_top: st.on_top, ..s7 };
    lemma_apply_lines_push(d, h.take(8), h[8]);
    assert(h.take(8).push(h[8]) =~= h.take(9));
    lemma_current_line(s8, st.current_preset);
    assert(h.take(9) =~= h);
    assert(SettingsModel { current_preset: st.current_preset, ..s8 } =~= with_presets(
        st,
        Seq::empty(),
    ));
}

/// Every line of the configuration file lacks line breaks and carriage returns.
proof fn lemma_settings_lines_plain(st: SettingsModel, c: char)
    requires
        st.storable(),
        c == '\n' || c == '\r',
    ensures
        forall|i: int| 0 <= i < settings_lines(st).len() ==> lacks_char(#[trigger] settings_lines(st)[i], c),
{
    lemma_words();
    let ls = settings_lines(st);
    let h = head_lines(st);
    assert(!is_digit(c));
    assert(lacks_char(seq!['='], c));
    assert(lacks_char(seq![':'], c));
    assert(lacks_char(seq!['F'], c));
    lemma_decimal_lacks(st.interval_ms as nat, c);
    lemma_decimal_lacks(st.times as nat, c);
    lemma_decimal_lacks(st.dur_h as nat, c);
    lemma_decimal_lacks(st.dur_m as nat, c);
    lemma_decimal_lacks(st.dur_s as nat, c);
    lemma_decimal_lacks((st.hotkey_index + 1) as nat, c);
    lemma_decimal_lacks(st.on_top as nat, c);
    assert forall|i: int| 0 <= i < ls.len() implies lacks_char(#[trigger] ls[i], c) by {
        if i < 9 {
            assert(ls[i] == h[i]);
            let l = h[i];
            if i == 0 {
                lemma_lacks_concat("mode"@ + seq!['='], mode_word(st.mode), c);
                lemma_lacks_concat("mode"@, seq!['='], c);
            } else if i == 1 {
                lemma_lacks_concat("button"@ + seq!['='], button_word(st.button), c);
                lemma_lacks_concat("button"@, seq!['='], c);
            } else if i == 2 {
                lemma_lacks_concat("interval_ms"@ + seq!['='], decimal(st.interval_ms as nat), c);
                lemma_lacks_concat("interval_ms"@, seq!['='], c);
            } else if i == 3 {
                lemma_lacks_concat("repeat"@ + seq!['='], repeat_word(st.repeat), c);
                lemma_lacks_concat("repeat"@, seq!['='], c);
            } else if i == 4 {
                lemma_lacks_concat("times"@ + seq!['='], decimal(st.times as nat), c);
                lemma_lacks_concat("times"@, seq!['='], c);
            } else if i == 5 {
                let dh = decimal2(st.dur_h as nat);
                let dm = decimal2(st.dur_m as nat);
                let ds = decimal2(st.dur_s as nat);
                lemma_lacks_concat(dh, seq![':'], c);
                lemma_lacks_concat(dh + seq![':'], dm, c);
                lemma_lacks_concat(dh + seq![':'] + dm, seq![':'], c);
                lemma_lacks_concat(dh + seq![':'] + dm + seq![':'], ds, c);
                lemma_lacks_concat("duration"@ + seq!['='], duration_value(st.dur_h, st.dur_m, st.dur_s), c);
                lemma_lacks_concat("duration"@, seq!['='], c);
            } else if i == 6 {
                lemma_lacks_concat(seq!['F'], decimal((st.hotkey_index + 1) as nat), c);
                lemma_lacks_concat("hotkey"@ + seq!['='], hotkey_name_spec(st.hotkey_index), c);
                lemma_lacks_concat("hotkey"@, seq!['='], c);
            } else if i == 7 {
                lemma_lacks_concat("ontop"@ + seq!['='], decimal(st.on_top as nat), c);
                lemma_lacks_concat("ontop"@, seq!['='], c);
            } else {
                let v = match st.current_preset {
                    Some(n) => n,
                    None => Seq::<char>::empty(),
                };
                lemma_lacks_concat("current"@ + seq!['='], v, c);
                lemma_lacks_concat("current"@, seq!['='], c);
            }
        } else {
            let p = st.presets[i - 9];
            assert(preset_storable(p));
            assert(ls[i] == preset_line(p));
            let ns = preset_numbers(p);
            let ds = ns.map_values(|n: nat| decimal(n));
            assert forall|j: int| 0 <= j < ds.len() implies lacks_char(#[trigger] ds[j], c) by {
                lemma_decimal_lacks(ns[j], c);
            }
            lemma_join_with_lacks(ds, ',', c);
            lemma_lacks_concat("preset."@, p.name, c);
            lemma_lacks_concat("preset."@ + p.name, seq!['='], c);
            lemma_lacks_concat("preset."@ + p.name + seq!['='], join_with(ds, ','), c);
        }
    }
}

/// Reading the configuration text of settings that the file can hold, on a
/// fresh start, gives back those settings.
pub proof fn lemma_settings_round_trip(st: SettingsModel)
    requires
        st.storable(),
    ensures
        load_spec(default_settings(), settings_text(st)) == st,
{
    lemma_settings_lines_plain(st, '\n');
    lemma_settings_lines_plain(st, '\r');
    lemma_lines_of_join_lines(settings_lines(st));
    let h = head_lines(st);
    let ps = st.presets.map_values(|p: PresetModel| preset_line(p));
    lemma_apply_lines_concat(default_settings(), h, ps);
    lemma_head_lines(st);
    lemma_preset_lines(with_presets(st, Seq::empty()), st.presets);
    assert(Seq::<PresetModel>::empty() + st.presets =~= st.presets);
    assert(with_presets(with_presets(st, Seq::empty()), st.presets) =~= st);
    assert(clamp_limits(st) =~= st);
}

/// A restart restores the saved settings: the state at start-up, given the
/// configuration text of settings that the file can hold and whose current
/// preset is saved, has those settings.
pub proof fn lemma_restart_restores(st: SettingsModel)
    requires
        st.storable(),
        st.current_is_saved(),
    ensures
        forget_unsaved_current(load_spec(default_settings(), settings_text(st))) == st,
{
    lemma_settings_round_trip(st);
}

} // verus!
