use automouse::presets::sanitize_preset_name;
use automouse::settings::{App, Preset, BUTTON_RIGHT, MODE_CLICK, MODE_HOLD, REPEAT_FOREVER};

fn names(a: &App) -> Vec<String> {
    a.presets.iter().map(|p| p.name.clone()).collect()
}

#[test]
fn sanitizing_names() {
    assert_eq!(sanitize_preset_name("  fast  "), "fast");
    assert_eq!(sanitize_preset_name("a=b,c\nd\re"), "abcde");
    assert_eq!(sanitize_preset_name("\u{3000}\t x \u{a0}"), "x");
    assert_eq!(sanitize_preset_name("abcdefghijklmnopqrstuvwxyz"), "abcdefghijklmnopqrstuvwx");
    assert_eq!(sanitize_preset_name("==,,"), "");
    assert_eq!(sanitize_preset_name(" = a"), " a");
}

#[test]
fn add_preset_with_and_without_name() {
    let mut a = App::new(None);
    a.add_preset();
    assert_eq!(names(&a), vec!["Preset 1"]);
    assert_eq!(a.current_preset, Some("Preset 1".to_string()));
    a.new_preset_name = "  mine ".to_string();
    a.interval_ms = 55;
    a.add_preset();
    assert_eq!(names(&a), vec!["Preset 1", "mine"]);
    assert_eq!(a.presets[1].interval_ms, 55);
    assert_eq!(a.new_preset_name, "");
    assert_eq!(a.current_preset, Some("mine".to_string()));
}

#[test]
fn add_preset_replaces_same_name() {
    let mut a = App::new(None);
    a.new_preset_name = "p".to_string();
    a.add_preset();
    a.mode = MODE_HOLD;
    a.new_preset_name = "p".to_string();
    a.add_preset();
    assert_eq!(a.presets.len(), 1);
    assert_eq!(a.presets[0].mode, MODE_HOLD);
    assert!(!a.preset_is_dirty(0));
}

#[test]
fn dirty_and_labels() {
    let mut a = App::new(None);
    a.new_preset_name = "p".to_string();
    a.add_preset();
    assert!(a.is_current_preset(0));
    assert!(!a.preset_is_dirty(0));
    assert_eq!(a.preset_label(0), "p");
    a.times = 3;
    assert!(a.preset_is_dirty(0));
    assert_eq!(a.preset_label(0), "p \u{2022}");
    a.overwrite_preset(0);
    assert!(!a.preset_is_dirty(0));
    assert_eq!(a.presets[0].times, 3);
    a.select_default();
    assert!(!a.is_current_preset(0));
    assert!(!a.preset_is_dirty(0));
}

#[test]
fn select_preset_and_default() {
    let mut a = App::new(None);
    a.presets.push(Preset {
        name: "r".to_string(),
        mode: MODE_HOLD,
        button: BUTTON_RIGHT,
        interval_ms: 7,
        repeat: 2,
        times: 9,
        dur_h: 1,
        dur_m: 2,
        dur_s: 3,
    });
    a.select_preset(0);
    assert_eq!(a.mode, MODE_HOLD);
    assert_eq!(a.button, BUTTON_RIGHT);
    assert_eq!(a.interval_ms, 7);
    assert_eq!((a.dur_h, a.dur_m, a.dur_s), (1, 2, 3));
    assert_eq!(a.current_preset, Some("r".to_string()));
    assert!(!a.preset_is_dirty(0));
    a.select_default();
    assert_eq!(a.mode, MODE_CLICK);
    assert_eq!(a.interval_ms, 100);
    assert_eq!(a.repeat, REPEAT_FOREVER);
    assert_eq!((a.dur_h, a.dur_m, a.dur_s), (0, 1, 0));
    assert_eq!(a.current_preset, None);
    assert_eq!(a.presets.len(), 1);
}

#[test]
fn delete_presets() {
    let mut a = App::new(None);
    for n in ["a", "b", "c"] {
        a.new_preset_name = n.to_string();
        a.add_preset();
    }
    assert_eq!(a.current_preset, Some("c".to_string()));
    a.delete_preset(0);
    assert_eq!(names(&a), vec!["b", "c"]);
    assert_eq!(a.current_preset, Some("c".to_string()));
    a.delete_preset(1);
    assert_eq!(names(&a), vec!["b"]);
    assert_eq!(a.current_preset, None);
}

#[test]
fn capture_and_apply() {
    let mut a = App::new(None);
    a.times = 77;
    let p = a.capture_preset("z".to_string());
    assert_eq!(p.name, "z");
    assert_eq!(p.times, 77);
    let mut b = App::new(None);
    b.apply_preset(&p);
    assert_eq!(b.times, 77);
    assert_eq!(b.capture_preset("z".to_string()), p);
    b.apply_default();
    assert_eq!(b.times, 100);
    assert_eq!((b.dur_h, b.dur_m, b.dur_s), (0, 1, 0));
}

#[test]
fn duration_in_ms() {
    let mut a = App::new(None);
    a.dur_h = 1;
    a.dur_m = 2;
    a.dur_s = 3;
    assert_eq!(a.duration_ms(), 3_723_000);
    a.dur_h = u32::MAX;
    a.dur_m = u32::MAX;
    a.dur_s = u32::MAX;
    assert_eq!(a.duration_ms(), (u32::MAX as u64 * 3661) * 1000);
}

#[test]
fn saved_presets_survive_a_restart() {
    let mut a = App::new(None);
    a.new_preset_name = "one".to_string();
    a.add_preset();
    a.times = 12;
    a.new_preset_name = "two".to_string();
    a.add_preset();
    let b = App::new(Some(&a.settings_string()));
    assert_eq!(b.presets, a.presets);
    assert_eq!(b.current_preset, a.current_preset);
}
