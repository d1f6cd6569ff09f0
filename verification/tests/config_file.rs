use automouse::config::parse_fkey;
use automouse::settings::{
    App, Preset, BUTTON_LEFT, BUTTON_RIGHT, MODE_CLICK, MODE_HOLD, REPEAT_DURATION,
    REPEAT_FOREVER, REPEAT_TIMES, TOP_ALWAYS, TOP_OFF, TOP_WHILE_RUNNING,
};

fn preset(name: &str, mode: u8, button: u8, interval_ms: u64, repeat: u8, times: u64, h: u32, m: u32, s: u32) -> Preset {
    Preset {
        name: name.to_string(),
        mode,
        button,
        interval_ms,
        repeat,
        times,
        dur_h: h,
        dur_m: m,
        dur_s: s,
    }
}

fn persisted(a: &App) -> (u8, u8, u64, u8, u64, u32, u32, u32, usize, u8, Vec<Preset>, Option<String>) {
    (
        a.mode,
        a.button,
        a.interval_ms,
        a.repeat,
        a.times,
        a.dur_h,
        a.dur_m,
        a.dur_s,
        a.hotkey_index,
        a.on_top,
        a.presets.clone(),
        a.current_preset.clone(),
    )
}

#[test]
fn new_without_config_has_defaults() {
    let a = App::new(None);
    assert_eq!(a.mode, MODE_CLICK);
    assert_eq!(a.button, BUTTON_LEFT);
    assert_eq!(a.interval_ms, 100);
    assert_eq!(a.repeat, REPEAT_FOREVER);
    assert_eq!(a.times, 100);
    assert_eq!((a.dur_h, a.dur_m, a.dur_s), (0, 1, 0));
    assert_eq!(a.hotkey_index, 8);
    assert_eq!(a.on_top, TOP_OFF);
    assert!(a.presets.is_empty());
    assert_eq!(a.current_preset, None);
    assert_eq!(a.new_preset_name, "");
    assert!(!a.advanced_open);
    assert_eq!(a.saved, a.settings_string());
}

#[test]
fn default_settings_text() {
    let a = App::new(None);
    assert_eq!(
        a.settings_string(),
        "mode=click\nbutton=left\ninterval_ms=100\nrepeat=forever\ntimes=100\nduration=00:01:00\nhotkey=F9\nontop=0\ncurrent=\n"
    );
}

#[test]
fn settings_text_with_presets() {
    let mut a = App::new(None);
    a.mode = MODE_HOLD;
    a.button = BUTTON_RIGHT;
    a.interval_ms = 250;
    a.repeat = REPEAT_DURATION;
    a.times = 7;
    a.dur_h = 1;
    a.dur_m = 2;
    a.dur_s = 35;
    a.hotkey_index = 11;
    a.on_top = TOP_WHILE_RUNNING;
    a.presets.push(preset("fast", 0, 1, 10, 1, 500, 0, 0, 5));
    a.current_preset = Some("fast".to_string());
    assert_eq!(
        a.settings_string(),
        "mode=hold\nbutton=right\ninterval_ms=250\nrepeat=duration\ntimes=7\nduration=01:02:35\nhotkey=F12\nontop=2\ncurrent=fast\npreset.fast=0,1,10,1,500,0,0,5\n"
    );
}

#[test]
fn reading_a_full_config() {
    let text = "mode=hold\nbutton=right\ninterval_ms=250\nrepeat=times\ntimes=42\nduration=03:04:05\nhotkey=F2\nontop=1\ncurrent=slow\npreset.slow=1,0,900,2,3,4,5,6\n";
    let a = App::new(Some(text));
    assert_eq!(a.mode, MODE_HOLD);
    assert_eq!(a.button, BUTTON_RIGHT);
    assert_eq!(a.interval_ms, 250);
    assert_eq!(a.repeat, REPEAT_TIMES);
    assert_eq!(a.times, 42);
    assert_eq!((a.dur_h, a.dur_m, a.dur_s), (3, 4, 5));
    assert_eq!(a.hotkey_index, 1);
    assert_eq!(a.on_top, TOP_ALWAYS);
    assert_eq!(a.presets, vec![preset("slow", 1, 0, 900, 2, 3, 4, 5, 6)]);
    assert_eq!(a.current_preset, Some("slow".to_string()));
    assert_eq!(a.saved, text);
}

#[test]
fn restart_restores_saved_settings() {
    let mut a = App::new(None);
    a.mode = MODE_HOLD;
    a.interval_ms = 600_000;
    a.repeat = REPEAT_TIMES;
    a.times = 1_000_000;
    a.dur_h = 99;
    a.dur_m = 59;
    a.dur_s = 9;
    a.hotkey_index = 0;
    a.on_top = TOP_ALWAYS;
    a.presets.push(preset("a b", 1, 1, 1, 2, 1, 0, 59, 59));
    a.presets.push(preset("x.y", 0, 0, 600_000, 0, 1_000_000, 99, 0, 0));
    a.current_preset = Some("x.y".to_string());
    let text = a.settings_string();
    let b = App::new(Some(&text));
    assert_eq!(persisted(&b), persisted(&a));
    assert_eq!(b.saved, text);
}

#[test]
fn crlf_lines_and_missing_final_newline() {
    let a = App::new(Some("mode=hold\r\nbutton=right\r\ntimes=5"));
    assert_eq!(a.mode, MODE_HOLD);
    assert_eq!(a.button, BUTTON_RIGHT);
    assert_eq!(a.times, 5);
    // a carriage return is kept on a last line without a line break
    let b = App::new(Some("mode=hold\r"));
    assert_eq!(b.mode, MODE_CLICK);
}

#[test]
fn values_are_clamped() {
    let a = App::new(Some("interval_ms=0\ntimes=5000000\nduration=123:75:99\n"));
    assert_eq!(a.interval_ms, 1);
    assert_eq!(a.times, 1_000_000);
    assert_eq!((a.dur_h, a.dur_m, a.dur_s), (99, 59, 59));
    let b = App::new(Some("interval_ms=900000\ntimes=0\n"));
    assert_eq!(b.interval_ms, 600_000);
    assert_eq!(b.times, 1);
}

#[test]
fn bad_values_are_ignored() {
    let a = App::new(Some("interval_ms=abc\ntimes=-3\nhotkey=F13\nnonsense\nunknown=1\n=5\n"));
    assert_eq!(a.interval_ms, 100);
    assert_eq!(a.times, 100);
    assert_eq!(a.hotkey_index, 8);
    let b = App::new(Some("interval_ms=18446744073709551616\ntimes=+7\n"));
    assert_eq!(b.interval_ms, 100);
    assert_eq!(b.times, 7);
}

#[test]
fn word_values() {
    assert_eq!(App::new(Some("mode=HOLD")).mode, MODE_CLICK);
    assert_eq!(App::new(Some("repeat=duration")).repeat, REPEAT_DURATION);
    assert_eq!(App::new(Some("repeat=times")).repeat, REPEAT_TIMES);
    assert_eq!(App::new(Some("repeat=x\n")).repeat, REPEAT_FOREVER);
    assert_eq!(App::new(Some("forever=1")).repeat, REPEAT_FOREVER);
    assert_eq!(App::new(Some("forever=0")).repeat, REPEAT_TIMES);
    assert_eq!(App::new(Some("ontop=2")).on_top, TOP_WHILE_RUNNING);
    assert_eq!(App::new(Some("ontop=7")).on_top, TOP_OFF);
    assert_eq!(App::new(Some("button=left")).button, BUTTON_LEFT);
}

#[test]
fn duration_parts() {
    let a = App::new(Some("duration=5"));
    assert_eq!((a.dur_h, a.dur_m, a.dur_s), (5, 0, 0));
    let b = App::new(Some("duration=1:2"));
    assert_eq!((b.dur_h, b.dur_m, b.dur_s), (1, 2, 0));
    let c = App::new(Some("duration=1:2:3:4"));
    assert_eq!((c.dur_h, c.dur_m, c.dur_s), (1, 2, 0));
    let d = App::new(Some("duration=x:07:4294967296"));
    assert_eq!((d.dur_h, d.dur_m, d.dur_s), (0, 7, 0));
}

#[test]
fn preset_lines() {
    // a field that is no number is left out: eight numbers remain
    let a = App::new(Some("preset.p=1,x,1,600,1,9,2,3,4\n"));
    assert_eq!(a.presets, vec![preset("p", 1, 1, 600, 1, 9, 2, 3, 4)]);
    // values are cast, then fitted into their bounds
    let b = App::new(Some("preset.q=257,2,0,9,0,100,60,61\n"));
    assert_eq!(b.presets, vec![preset("q", 1, 1, 1, 2, 1, 99, 59, 59)]);
    let c = App::new(Some("preset.q=256,0,700000,3,2000000,4294967297,1,1\n"));
    assert_eq!(c.presets, vec![preset("q", 0, 0, 600_000, 2, 1_000_000, 1, 1, 1)]);
    // wrong number of fields, or an empty name
    let d = App::new(Some("preset.r=1,2,3\npreset.=1,1,1,1,1,1,1,1\n"));
    assert!(d.presets.is_empty());
    // duplicates are kept, in order
    let e = App::new(Some("preset.s=0,0,5,0,5,0,0,0\npreset.s=1,0,5,0,5,0,0,0\n"));
    assert_eq!(e.presets.len(), 2);
    assert_eq!(e.presets[1].mode, 1);
}

#[test]
fn unsaved_current_preset_is_forgotten() {
    let a = App::new(Some("current=ghost\n"));
    assert_eq!(a.current_preset, None);
    let b = App::new(Some("current=p\npreset.p=0,0,5,0,5,0,0,0\n"));
    assert_eq!(b.current_preset, Some("p".to_string()));
    let c = App::new(Some("current=\n"));
    assert_eq!(c.current_preset, None);
}

#[test]
fn load_settings_over_a_state() {
    let mut a = App::new(None);
    a.interval_ms = 0;
    a.load_settings("mode=hold\n");
    assert_eq!(a.mode, MODE_HOLD);
    assert_eq!(a.interval_ms, 1);
}

#[test]
fn unicode_text() {
    let a = App::new(Some("current=caf\u{e9} \u{1f600}\npreset.caf\u{e9} \u{1f600}=0,0,5,0,5,0,0,0\n"));
    assert_eq!(a.current_preset, Some("caf\u{e9} \u{1f600}".to_string()));
    assert_eq!(a.presets[0].name, "caf\u{e9} \u{1f600}");
}

#[test]
fn fkey_names() {
    assert_eq!(parse_fkey("F1"), Some(0));
    assert_eq!(parse_fkey("F12"), Some(11));
    assert_eq!(parse_fkey("F09"), Some(8));
    assert_eq!(parse_fkey("F+3"), Some(2));
    assert_eq!(parse_fkey("F0"), None);
    assert_eq!(parse_fkey("F13"), None);
    assert_eq!(parse_fkey("f1"), None);
    assert_eq!(parse_fkey("F"), None);
    assert_eq!(parse_fkey(""), None);
    assert_eq!(parse_fkey("F99999999999999999999999"), None);
}

#[test]
fn hotkey_name_round_trip() {
    for i in 0..12usize {
        let mut a = App::new(None);
        a.hotkey_index = i;
        assert_eq!(parse_fkey(&a.hotkey_name()), Some(i));
    }
    let mut a = App::new(None);
    a.hotkey_index = 8;
    assert_eq!(a.hotkey_name(), "F9");
}
