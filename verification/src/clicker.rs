//! The decisions of the worker that presses the mouse button. The worker is a
//! state machine: each step takes what the worker reads (the shared settings
//! and the time) and gives the next state and one action for the program to
//! carry out. Time is counted in nanoseconds from any fixed start.

use vstd::prelude::*;

use crate::settings::MODE_HOLD;
use crate::shared::{button_flags, button_flags_spec, Shared};

verus! {

pub const NS_PER_MS: u128 = 1_000_000;

/// The longest sleep between two looks at the shared state, so that a stop is
/// noticed quickly (10 ms).
pub const MAX_SLEEP_NS: u64 = 10_000_000;

/// Whether the deadline `end`, if any, has come at `now`.
pub open spec fn expired(end: Option<u128>, now: u64) -> bool {
    match end {
        Some(e) => now >= e,
        None => false,
    }
}

/// Whether the deadline `end`, if any, has come at `now`.
pub fn deadline_passed(end: Option<u128>, now: u64) -> (b: bool)
    ensures
        b == expired(end, now),
{
    match end {
        Some(e) => now as u128 >= e,
        None => false,
    }
}

/// The deadline of a run that starts at `now` and lasts `duration_ms`
/// milliseconds; none for a run without a time limit (0).
pub open spec fn deadline_spec(duration_ms: u64, now: u64) -> Option<u128> {
    if duration_ms == 0 {
        None
    } else {
        Some((now + duration_ms * NS_PER_MS) as u128)
    }
}

/// The deadline of a run, as `deadline_spec` says.
pub fn run_deadline(duration_ms: u64, now: u64) -> (end: Option<u128>)
    ensures
        end == deadline_spec(duration_ms, now),
{
    if duration_ms == 0 {
        None
    } else {
        Some(now as u128 + duration_ms as u128 * NS_PER_MS)
    }
}

/// The time between two clicks for the interval setting `interval_ms`: at
/// least 1 ms.
pub open spec fn step_ns(interval_ms: u64) -> int {
    (if interval_ms >= 1 {
        interval_ms
    } else {
        1
    }) * NS_PER_MS
}

/// What a clicking run does next while it waits.
#[derive(PartialEq, Eq, Debug, Clone, Copy)]
pub enum WaitStep {
    /// The time limit has come: the run ends.
    Stop,
    /// The next click is due.
    Click,
    /// Sleep this many nanoseconds, then look again.
    Sleep(u64),
}

/// A run of clicks.
#[derive(PartialEq, Eq, Debug, Clone, Copy)]
pub struct ClickRun {
    /// Click-count limit; 0 = none.
    pub times: u64,
    /// Time limit; none when the run has none.
    pub end_ns: Option<u128>,
    /// Clicks made so far.
    pub count: u64,
    /// When the next click is due. Deadlines are absolute, so that a late
    /// wake-up does not delay every later click.
    pub next_ns: u128,
}

impl ClickRun {
    /// The run ends: the click count reached its limit or the time limit came.
    pub open spec fn finished_spec(self, now: u64) -> bool {
        (self.times != 0 && self.count >= self.times) || expired(self.end_ns, now)
    }

    /// The due time of the next click after one more interval (at least 1 ms);
    /// when that is already past at `now`, `now` (a run that fell behind does
    /// not burst to catch up).
    pub open spec fn next_due(self, interval_ms: u64, now: u64) -> u128 {
        if self.next_ns + step_ns(interval_ms) < now {
            now as u128
        } else {
            (self.next_ns + step_ns(interval_ms)) as u128
        }
    }

    /// What to do at `now` while waiting: stop when the time limit has come,
    /// click when the next click is due, else sleep until it is due, at most
    /// `MAX_SLEEP_NS`.
    pub open spec fn wait_spec(self, now: u64) -> WaitStep {
        if expired(self.end_ns, now) {
            WaitStep::Stop
        } else if now >= self.next_ns {
            WaitStep::Click
        } else if self.next_ns - now <= MAX_SLEEP_NS {
            WaitStep::Sleep((self.next_ns - now) as u64)
        } else {
            WaitStep::Sleep(MAX_SLEEP_NS)
        }
    }

    /// A run that starts at `now`, with the click-count limit `times` and the
    /// time limit `duration_ms` (0 = none for both); the first click is due
    /// at once.
    pub fn start(times: u64, duration_ms: u64, now: u64) -> (r: ClickRun)
        ensures
            r == (ClickRun {
                times: times,
                end_ns: deadline_spec(duration_ms, now),
                count: 0,
                next_ns: now as u128,
            }),
    {
        ClickRun { times, end_ns: run_deadline(duration_ms, now), count: 0, next_ns: now as u128 }
    }

    /// Whether the run ends at `now`.
    pub fn finished(&self, now: u64) -> (b: bool)
        ensures
            b == self.finished_spec(now),
    {
        (self.times != 0 && self.count >= self.times) || deadline_passed(self.end_ns, now)
    }

    /// Moves the due time of the next click on, as `next_due` says.
    pub fn schedule_next(&mut self, interval_ms: u64, now: u64)
        requires
            old(self).next_ns + step_ns(interval_ms) <= u128::MAX,
        ensures
            *final(self) == (ClickRun { next_ns: old(self).next_due(interval_ms, now), ..*old(self) }),
            final(self).next_ns > old(self).next_ns,
            final(self).next_ns >= now,
    {
        let step: u128 = if interval_ms >= 1 {
            interval_ms as u128
        } else {
            1
        } * NS_PER_MS;
        self.next_ns = self.next_ns + step;
        if self.next_ns < now as u128 {
            self.next_ns = now as u128;
        }
    }

    /// What to do at `now` while waiting, as `wait_spec` says; a sleep is
    /// 1 ns .. 10 ms long and never passes the due time.
    pub fn wait_step(&self, now: u64) -> (w: WaitStep)
        ensures
            w == self.wait_spec(now),
            w matches WaitStep::Sleep(ns) ==> 1 <= ns <= MAX_SLEEP_NS && now + ns <= self.next_ns,
    {
        if deadline_passed(self.end_ns, now) {
            WaitStep::Stop
        } else if now as u128 >= self.next_ns {
            WaitStep::Click
        } else if self.next_ns - now as u128 <= MAX_SLEEP_NS as u128 {
            WaitStep::Sleep((self.next_ns - now as u128) as u64)
        } else {
            WaitStep::Sleep(MAX_SLEEP_NS)
        }
    }
}

/// Where a clicking run stands.
#[derive(PartialEq, Eq, Debug, Clone, Copy)]
pub enum Phase {
    /// The first click is due.
    Due,
    /// A click was just made; whether the run ends is decided next.
    Clicked,
    /// Waiting for the next click.
    Waiting,
}

/// The state of the clicking worker.
#[derive(PartialEq, Eq, Debug, Clone, Copy)]
pub enum Worker {
    /// No run is on.
    Idle,
    /// The button is held down; `up` releases it.
    Holding { up: u32, end_ns: Option<u128> },
    /// A hold run ended by its time limit; the button is released next.
    Releasing { up: u32 },
    /// A clicking run with the button's input flags.
    Clicking { down: u32, up: u32, run: ClickRun, phase: Phase },
}

/// What the program carries out after a step.
#[derive(PartialEq, Eq, Debug, Clone, Copy)]
pub enum WorkerAction {
    /// Sleep this many nanoseconds.
    Wait(u64),
    /// A clicking run starts: the click count shown is set to 0.
    StartClicking,
    /// A hold run starts: the click count shown is set to 0 and the button is
    /// pressed with these flags.
    Press(u32),
    /// The button is released with these flags.
    Release(u32),
    /// A click: press with `down`, release with `up`, show `count` clicks.
    Click { down: u32, up: u32, count: u64 },
    /// The run ends by itself: the shared run state is set off.
    Deactivate,
}

/// The step while no run is on: wait, or start the run that the shared
/// settings describe.
pub open spec fn idle_step(s: Shared, now: u64) -> (Worker, WorkerAction) {
    if !s.active {
        (Worker::Idle, WorkerAction::Wait(MAX_SLEEP_NS))
    } else {
        let flags = button_flags_spec(s.button);
        if s.mode == MODE_HOLD {
            (
                Worker::Holding { up: flags.1, end_ns: deadline_spec(s.duration_ms, now) },
                WorkerAction::Press(flags.0),
            )
        } else {
            (
                Worker::Clicking {
                    down: flags.0,
                    up: flags.1,
                    run: ClickRun {
                        times: s.times,
                        end_ns: deadline_spec(s.duration_ms, now),
                        count: 0,
                        next_ns: now as u128,
                    },
                    phase: Phase::Due,
                },
                WorkerAction::StartClicking,
            )
        }
    }
}

/// The step when a click is due: click, unless the run was switched off.
pub open spec fn due_step(down: u32, up: u32, run: ClickRun, s: Shared, now: u64) -> (
    Worker,
    WorkerAction,
) {
    if !s.active {
        idle_step(s, now)
    } else {
        let r = ClickRun { count: (run.count + 1) as u64, ..run };
        (
            Worker::Clicking { down: down, up: up, run: r, phase: Phase::Clicked },
            WorkerAction::Click { down: down, up: up, count: r.count },
        )
    }
}

/// The step while waiting for the next click.
pub open spec fn waiting_step(down: u32, up: u32, run: ClickRun, s: Shared, now: u64) -> (
    Worker,
    WorkerAction,
) {
    if !s.active {
        idle_step(s, now)
    } else {
        match run.wait_spec(now) {
            WaitStep::Stop => (Worker::Idle, WorkerAction::Deactivate),
            WaitStep::Click => due_step(down, up, run, s, now),
            WaitStep::Sleep(ns) => (
                Worker::Clicking { down: down, up: up, run: run, phase: Phase::Waiting },
                WorkerAction::Wait(ns),
            ),
        }
    }
}

/// The step after a click: end the run, or schedule the next click and wait.
pub open spec fn clicked_step(down: u32, up: u32, run: ClickRun, s: Shared, now: u64) -> (
    Worker,
    WorkerAction,
) {
    if run.finished_spec(now) {
        (Worker::Idle, WorkerAction::Deactivate)
    } else {
        waiting_step(
            down,
            up,
            ClickRun { next_ns: run.next_due(s.interval_ms, now), ..run },
            s,
            now,
        )
    }
}

/// One step of the clicking worker, given the shared state `s` at time `now`.
pub open spec fn step_spec(w: Worker, s: Shared, now: u64) -> (Worker, WorkerAction) {
    match w {
        Worker::Idle => idle_step(s, now),
        Worker::Holding { up, end_ns } => if !s.active {
            (Worker::Idle, WorkerAction::Release(up))
        } else if expired(end_ns, now) {
            (Worker::Releasing { up: up }, WorkerAction::Deactivate)
        } else {
            (w, WorkerAction::Wait(MAX_SLEEP_NS))
        },
        Worker::Releasing { up } => (Worker::Idle, WorkerAction::Release(up)),
        Worker::Clicking { down, up, run, phase } => match phase {
            Phase::Due => due_step(down, up, run, s, now),
            Phase::Clicked => clicked_step(down, up, run, s, now),
            Phase::Waiting => waiting_step(down, up, run, s, now),
        },
    }
}

impl Worker {
    /// The step does not pass a machine limit: the click count stays below
    /// `u64::MAX` and the next due time fits `u128`.
    pub open spec fn step_ok(self, s: Shared, now: u64) -> bool {
        match self {
            Worker::Clicking { run, phase, .. } => match phase {
                Phase::Clicked => run.finished_spec(now) || (run.next_ns + step_ns(s.interval_ms)
                    <= u128::MAX && (!s.active || run.count < u64::MAX)),
                _ => !s.active || run.count < u64::MAX,
            },
            _ => true,
        }
    }

    /// Whether `step` may be taken, as `step_ok` says.
    pub fn can_step(&self, s: &Shared, now: u64) -> (b: bool)
        ensures
            b == self.step_ok(*s, now),
    {
        match self {
            Worker::Clicking { run, phase, .. } => match phase {
                Phase::Clicked => {
                    let step: u128 = if s.interval_ms >= 1 {
                        s.interval_ms as u128
                    } else {
                        1
                    } * NS_PER_MS;
                    run.finished(now) || (run.next_ns <= u128::MAX - step && (!s.active
                        || run.count < u64::MAX))
                },
                _ => !s.active || run.count < u64::MAX,
            },
            _ => true,
        }
    }

    fn start_step(s: &Shared, now: u64) -> (r: (Worker, WorkerAction))
        ensures
            r == idle_step(*s, now),
    {
        if !s.active {
            return (Worker::Idle, WorkerAction::Wait(MAX_SLEEP_NS));
        }
        let (down, up) = button_flags(s.button);
        if s.mode == MODE_HOLD {
            (
                Worker::Holding { up, end_ns: run_deadline(s.duration_ms, now) },
                WorkerAction::Press(down),
            )
        } else {
            (
                Worker::Clicking {
                    down,
                    up,
                    run: ClickRun::start(s.times, s.duration_ms, now),
                    phase: Phase::Due,
                },
                WorkerAction::StartClicking,
            )
        }
    }

    fn due(down: u32, up: u32, run: ClickRun, s: &Shared, now: u64) -> (r: (Worker, WorkerAction))
        requires
            !s.active || run.count < u64::MAX,
        ensures
            r == due_step(down, up, run, *s, now),
    {
        if !s.active {
            return Self::start_step(s, now);
        }
        let mut r = run;
        r.count = r.count + 1;
        (
            Worker::Clicking { down, up, run: r, phase: Phase::Clicked },
            WorkerAction::Click { down, up, count: r.count },
        )
    }

    fn waiting(down: u32, up: u32, run: ClickRun, s: &Shared, now: u64) -> (r: (
        Worker,
        WorkerAction,
    ))
        requires
            !s.active || run.count < u64::MAX,
        ensures
            r == waiting_step(down, up, run, *s, now),
    {
        if !s.active {
            return Self::start_step(s, now);
        }
        match run.wait_step(now) {
            WaitStep::Stop => (Worker::Idle, WorkerAction::Deactivate),
            WaitStep::Click => Self::due(down, up, run, s, now),
            WaitStep::Sleep(ns) => (
                Worker::Clicking { down, up, run, phase: Phase::Waiting },
                WorkerAction::Wait(ns),
            ),
        }
    }

    /// One step of the clicking worker, as `step_spec` says.
    pub fn step(&mut self, s: &Shared, now: u64) -> (a: WorkerAction)
        requires
            old(self).step_ok(*s, now),
        ensures
            (*final(self), a) == step_spec(*old(self), *s, now),
    {
        let (next, a) = match *self {
            Worker::Idle => Self::start_step(s, now),
            Worker::Holding { up, end_ns } => if !s.active {
                (Worker::Idle, WorkerAction::Release(up))
            } else if deadline_passed(end_ns, now) {
                (Worker::Releasing { up }, WorkerAction::Deactivate)
            } else {
                (*self, WorkerAction::Wait(MAX_SLEEP_NS))
            },
            Worker::Releasing { up } => (Worker::Idle, WorkerAction::Release(up)),
            Worker::Clicking { down, up, run, phase } => match phase {
                Phase::Due => Self::due(down, up, run, s, now),
                Phase::Clicked => {
                    if run.finished(now) {
                        (Worker::Idle, WorkerAction::Deactivate)
                    } else {
                        let mut r = run;
                        r.schedule_next(s.interval_ms, now);
                        Self::waiting(down, up, r, s, now)
                    }
                },
                Phase::Waiting => Self::waiting(down, up, run, s, now),
            },
        };
        *self = next;
        a
    }
}

} // verus!
