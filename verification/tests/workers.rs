use automouse::clicker::{deadline_passed, run_deadline, ClickRun, Phase, WaitStep, Worker, WorkerAction};
use automouse::display::{countdown_text, want_on_top};
use automouse::hotkey::{is_hotkey_message, registration_modifiers, HotkeyRegistration, HOTKEY_ID};
use automouse::settings::{App, REPEAT_DURATION, REPEAT_TIMES, MODE_HOLD, TOP_ALWAYS, TOP_OFF, TOP_WHILE_RUNNING, VK_F1};
use automouse::shared::{button_flags, Shared};

#[test]
fn shared_defaults() {
    let s = Shared::new();
    assert!(!s.active);
    assert_eq!(s.interval_ms, 100);
    assert_eq!(s.hotkey_vk, 0x78);
    assert!(s.hotkey_ok);
    assert_eq!((s.times, s.duration_ms, s.clicks_done), (0, 0, 0));
}

#[test]
fn pushing_settings() {
    let mut a = App::new(None);
    let mut s = Shared::new();
    s.active = true;
    s.clicks_done = 4;
    a.interval_ms = 0;
    a.repeat = REPEAT_TIMES;
    a.times = 0;
    a.hotkey_index = 2;
    a.push_settings(&mut s);
    assert_eq!(s.interval_ms, 1);
    assert_eq!((s.times, s.duration_ms), (1, 0));
    assert_eq!(s.hotkey_vk, VK_F1 + 2);
    assert!(s.active);
    assert_eq!(s.clicks_done, 4);
    a.repeat = REPEAT_DURATION;
    a.dur_m = 2;
    a.push_settings(&mut s);
    assert_eq!((s.times, s.duration_ms), (0, 120_000));
    a.repeat = 0;
    a.push_settings(&mut s);
    assert_eq!((s.times, s.duration_ms), (0, 0));
}

#[test]
fn mouse_flags() {
    assert_eq!(button_flags(0), (2, 4));
    assert_eq!(button_flags(1), (8, 16));
    assert_eq!(button_flags(7), (2, 4));
}

#[test]
fn hotkey_registration_arguments() {
    assert_eq!(HOTKEY_ID, 1);
    assert_eq!(registration_modifiers(), 0x4000);
}

#[test]
fn hotkey_decisions() {
    assert!(is_hotkey_message(0x0312));
    assert!(!is_hotkey_message(0x0100));
    let mut r = HotkeyRegistration::new(0x78, false);
    assert!(r.needs_register(0x78));
    r.advance();
    assert!(!r.needs_register(0x78));
    assert!(r.needs_register(0x79));
    for _ in 0..99 {
        r.advance();
    }
    assert_eq!(r.tick, 100);
    assert!(r.needs_register(0x78));
    r.record(0x78, true);
    assert!(!r.needs_register(0x78));
    r.tick = u32::MAX;
    r.advance();
    assert_eq!(r.tick, 0);
}

#[test]
fn hotkey_retry_every_hundred_passes() {
    let mut r = HotkeyRegistration::new(0x78, false);
    let mut attempts = Vec::new();
    for pass in 0..250u32 {
        if r.needs_register(0x78) {
            attempts.push(pass);
            r.record(0x78, false);
        }
        r.advance();
    }
    assert_eq!(attempts, vec![0, 100, 200]);
}

const MS: u64 = 1_000_000;

#[test]
fn click_run_steps() {
    let mut run = ClickRun::start(3, 0, 1000 * MS);
    assert_eq!(run.end_ns, None);
    assert_eq!(run.wait_step(1000 * MS), WaitStep::Click);
    run.schedule_next(50, 1001 * MS);
    assert_eq!(run.next_ns, 1050 * MS as u128);
    assert_eq!(run.wait_step(1001 * MS), WaitStep::Sleep(10 * MS));
    assert_eq!(run.wait_step(1045 * MS), WaitStep::Sleep(5 * MS));
    assert_eq!(run.wait_step(1050 * MS), WaitStep::Click);
    run.count = 3;
    assert!(run.finished(1050 * MS));
    run.count = 2;
    assert!(!run.finished(1050 * MS));
}

#[test]
fn click_run_falls_behind_and_deadline() {
    let mut run = ClickRun::start(0, 500, 0);
    assert_eq!(run.end_ns, Some(500 * MS as u128));
    run.schedule_next(0, 300 * MS);
    assert_eq!(run.next_ns, 300 * MS as u128);
    assert_eq!(run.wait_step(499 * MS), WaitStep::Click);
    assert_eq!(run.wait_step(500 * MS), WaitStep::Stop);
    assert!(run.finished(500 * MS));
}

#[test]
fn deadlines() {
    assert_eq!(run_deadline(0, 5), None);
    assert_eq!(run_deadline(10, 5), Some(10 * MS as u128 + 5));
    assert_eq!(run_deadline(u64::MAX, u64::MAX), Some(u64::MAX as u128 * 1_000_001));
    assert!(!deadline_passed(None, u64::MAX));
    assert!(deadline_passed(Some(3), 3));
    assert!(!deadline_passed(Some(3), 2));
}

fn click_settings(times: u64, duration_ms: u64, interval_ms: u64) -> Shared {
    let mut s = Shared::new();
    s.active = true;
    s.times = times;
    s.duration_ms = duration_ms;
    s.interval_ms = interval_ms;
    s
}

#[test]
fn worker_click_run_with_limit() {
    // the law on concrete values: 3 clicks, 10 ms apart, then the end
    let s = click_settings(3, 0, 10);
    let mut w = Worker::Idle;
    let mut actions = Vec::new();
    let mut t = 0;
    while actions.last() != Some(&WorkerAction::Deactivate) {
        assert!(w.can_step(&s, t));
        let a = w.step(&s, t);
        if let WorkerAction::Wait(ns) = a {
            t += ns;
        }
        actions.push(a);
    }
    let clicks: Vec<u64> = actions
        .iter()
        .filter_map(|a| match a {
            WorkerAction::Click { count, .. } => Some(*count),
            _ => None,
        })
        .collect();
    assert_eq!(actions[0], WorkerAction::StartClicking);
    assert_eq!(clicks, vec![1, 2, 3]);
    assert_eq!(actions[actions.len() - 2], WorkerAction::Click { down: 2, up: 4, count: 3 });
    assert_eq!(t, 20 * MS);
    assert_eq!(w, Worker::Idle);
}

#[test]
fn worker_click_run_with_deadline() {
    let s = click_settings(0, 25, 10);
    let mut w = Worker::Idle;
    let mut clicks = 0;
    let mut t = 0;
    loop {
        let a = w.step(&s, t);
        match a {
            WorkerAction::Wait(ns) => t += ns,
            WorkerAction::Click { .. } => clicks += 1,
            WorkerAction::Deactivate => break,
            _ => {}
        }
    }
    // clicks at 0, 10 and 20 ms; the wait after the third click lasts
    // until the next due time, 30 ms, where the passed deadline ends the run
    assert_eq!(clicks, 3);
    assert_eq!(t, 30 * MS);
}

#[test]
fn worker_stopped_from_outside() {
    let mut s = click_settings(0, 0, 10);
    let mut w = Worker::Idle;
    assert_eq!(w.step(&s, 0), WorkerAction::StartClicking);
    assert_eq!(w.step(&s, 0), WorkerAction::Click { down: 2, up: 4, count: 1 });
    s.active = false;
    // the click is followed by the end check; a run switched off waits
    assert_eq!(w.step(&s, 0), WorkerAction::Wait(10 * MS));
    assert_eq!(w, Worker::Idle);
}

#[test]
fn worker_hold_run() {
    let mut s = click_settings(0, 0, 10);
    s.mode = MODE_HOLD;
    s.button = 1;
    let mut w = Worker::Idle;
    assert_eq!(w.step(&s, 0), WorkerAction::Press(8));
    assert_eq!(w.step(&s, MS), WorkerAction::Wait(10 * MS));
    s.active = false;
    assert_eq!(w.step(&s, 2 * MS), WorkerAction::Release(16));
    assert_eq!(w, Worker::Idle);
    // ended by its time limit: switched off, then released
    s.active = true;
    s.duration_ms = 5;
    assert_eq!(w.step(&s, 0), WorkerAction::Press(8));
    assert_eq!(w.step(&s, 4 * MS), WorkerAction::Wait(10 * MS));
    assert_eq!(w.step(&s, 5 * MS), WorkerAction::Deactivate);
    assert_eq!(w.step(&s, 6 * MS), WorkerAction::Release(16));
}

#[test]
fn worker_overflow_guard() {
    let s = click_settings(0, 0, 10);
    let w = Worker::Clicking {
        down: 2,
        up: 4,
        run: ClickRun { times: 0, end_ns: None, count: u64::MAX, next_ns: 0 },
        phase: Phase::Waiting,
    };
    assert!(!w.can_step(&s, 0));
    let idle = Worker::Idle;
    assert!(idle.can_step(&s, 0));
}

#[test]
fn window_level() {
    assert!(want_on_top(TOP_ALWAYS, false));
    assert!(!want_on_top(TOP_OFF, true));
    assert!(want_on_top(TOP_WHILE_RUNNING, true));
    assert!(!want_on_top(TOP_WHILE_RUNNING, false));
}

#[test]
fn countdown() {
    assert_eq!(countdown_text(3_723_000, 0), "01:02:03 left");
    assert_eq!(countdown_text(60_000, 500_000_000), "00:00:59 left");
    assert_eq!(countdown_text(1000, 5_000_000_000), "00:00:00 left");
    assert_eq!(countdown_text(360_000_000, 0), "100:00:00 left");
}

#[test]
fn texts() {
    let mut a = App::new(None);
    assert_eq!(a.idle_hint(true), "Idle. Press F9 to start/stop");
    assert_eq!(
        a.idle_hint(false),
        "F9 is taken by another app (autoclicker already running?). Close it or pick another key"
    );
    assert_eq!(a.stop_hint(), "press F9 to stop");
    assert_eq!(a.holding_text(), "Holding left button");
    a.button = 1;
    assert_eq!(a.holding_text(), "Holding right button");
    assert_eq!(a.clicks_text(5), "5");
    a.repeat = REPEAT_TIMES;
    a.times = 20;
    assert_eq!(a.clicks_text(5), "5 / 20");
}

#[test]
fn repeat_coercion_and_snapshots() {
    let mut a = App::new(None);
    a.repeat = REPEAT_TIMES;
    a.coerce_repeat_for_mode();
    assert_eq!(a.repeat, REPEAT_TIMES);
    a.mode = MODE_HOLD;
    a.coerce_repeat_for_mode();
    assert_eq!(a.repeat, 0);
    a.repeat = REPEAT_DURATION;
    a.coerce_repeat_for_mode();
    assert_eq!(a.repeat, REPEAT_DURATION);
    let mut b = App::new(None);
    assert_eq!(b.changed_snapshot(), None);
    b.times = 9;
    let t = b.changed_snapshot().unwrap();
    assert!(t.contains("times=9\n"));
    assert_ne!(b.saved, t);
    // a failed write keeps offering the text
    b.record_write(t.clone(), false);
    assert_eq!(b.changed_snapshot(), Some(t.clone()));
    b.record_write(t.clone(), true);
    assert_eq!(b.saved, t);
    assert_eq!(b.changed_snapshot(), None);
}
