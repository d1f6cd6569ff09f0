//! What the clicking worker does over a whole run, proved from its steps.

use vstd::prelude::*;

use crate::clicker::{
    deadline_spec, step_ns, step_spec, ClickRun, Phase, WaitStep, Worker,
    WorkerAction, NS_PER_MS,
};
use crate::settings::{BUTTON_RIGHT, MODE_HOLD};
use crate::shared::Shared;

verus! {

/// The actions of the worker from `w` on, given what it reads at each step.
pub open spec fn trace(w: Worker, obs: Seq<(Shared, u64)>) -> Seq<WorkerAction>
    decreases obs.len(),
{
    if obs.len() == 0 {
        Seq::empty()
    } else {
        let (w2, a) = step_spec(w, obs[0].0, obs[0].1);
        seq![a] + trace(w2, obs.drop_first())
    }
}

/// The number of clicks among `ts`.
pub open spec fn clicks(ts: Seq<WorkerAction>) -> nat
    decreases ts.len(),
{
    if ts.len() == 0 {
        0
    } else {
        (if ts[0] is Click {
            1nat
        } else {
            0nat
        }) + clicks(ts.drop_first())
    }
}

/// The worker switched the run off somewhere in `ts`.
pub open spec fn deactivated(ts: Seq<WorkerAction>) -> bool {
    exists|i: int| 0 <= i < ts.len() && ts[i] is Deactivate
}

/// `t0 + k * step`: the earliest time of click `k + 1` of a run that started
/// at `t0`.
pub open spec fn due_after(t0: u64, k: int, step: int) -> int {
    t0 + k * step
}

/// What the worker reads stays the same run: the run is on, in clicking mode,
/// with the click-count limit `n`, the time limit `d` ms and the interval `i`
/// ms, and the time does not go back.
pub open spec fn steady_click_run(obs: Seq<(Shared, u64)>, n: u64, d: u64, i: u64) -> bool {
    &&& forall|k: int|
        0 <= k < obs.len() ==> {
            let s = #[trigger] obs[k].0;
            &&& s.active
            &&& s.mode != MODE_HOLD
            &&& s.times == n
            &&& s.duration_ms == d
            &&& s.interval_ms == i
        }
    &&& forall|a: int, b: int| 0 <= a <= b < obs.len() ==> #[trigger] obs[a].1 <= #[trigger] obs[b].1
}

/// Where a clicking run that started at `t0` can stand, when the worker last
/// read the time `last`.
pub open spec fn click_inv(w: Worker, n: u64, d: u64, i: u64, t0: u64, last: u64) -> bool {
    match w {
        Worker::Clicking { run, phase, .. } => {
            &&& run.times == n
            &&& run.end_ns == deadline_spec(d, t0)
            &&& (n != 0 ==> run.count <= n)
            &&& run.next_ns <= last + step_ns(i)
            &&& t0 <= last
            &&& match phase {
                Phase::Due => run.count == 0 && run.next_ns == t0,
                Phase::Clicked => run.count >= 1 && run.next_ns >= due_after(
                    t0,
                    run.count - 1,
                    step_ns(i),
                ) && run.next_ns <= last,
                Phase::Waiting => (n != 0 ==> run.count < n) && run.next_ns >= due_after(
                    t0,
                    run.count as int,
                    step_ns(i),
                ),
            }
        },
        _ => false,
    }
}

pub open spec fn run_of(w: Worker) -> ClickRun {
    match w {
        Worker::Clicking { run, .. } => run,
        _ => arbitrary(),
    }
}

proof fn lemma_due_after_succ(t0: u64, k: int, step: int)
    ensures
        due_after(t0, k + 1, step) == due_after(t0, k, step) + step,
{
    assert((k + 1) * step == k * step + step) by (nonlinear_arith);
}

/// One step of a steady clicking run.
proof fn lemma_click_step(w: Worker, s: Shared, now: u64, n: u64, d: u64, i: u64, t0: u64, last: u64)
    requires
        click_inv(w, n, d, i, t0, last),
        s.active,
        s.mode != MODE_HOLD,
        s.times == n,
        s.duration_ms == d,
        s.interval_ms == i,
        now >= last,
        n != 0 || run_of(w).count < u64::MAX,
    ensures
        ({
            let (w2, a) = step_spec(w, s, now);
            let c = run_of(w).count;
            &&& a is Click || a is Deactivate || a is Wait
            &&& a is Click ==> {
                &&& a->count == c + 1
                &&& (n != 0 ==> a->count <= n)
                &&& now >= due_after(t0, c as int, step_ns(i))
                &&& w2 matches Worker::Clicking { phase: Phase::Clicked, .. }
                &&& run_of(w2).count == a->count
            }
            &&& a is Deactivate ==> (n != 0 && c == n) || (d != 0 && now >= t0 + d * NS_PER_MS)
            &&& a is Wait ==> run_of(w2).count == c
            &&& !(a is Deactivate) ==> click_inv(w2, n, d, i, t0, now)
            &&& (d != 0 && now >= t0 + d * NS_PER_MS) ==> (a is Deactivate || a is Click)
            &&& (w matches Worker::Clicking { phase: Phase::Clicked, run, .. } && run.finished_spec(
                now,
            )) ==> a is Deactivate
                    &&& now >= last + step_ns(i) ==> (a is Click || a is Deactivate)
        }),
{
    let st = step_ns(i);
    assert(st >= NS_PER_MS);
    if let Worker::Clicking { down, up, run, phase } = w {
        let c = run.count;
        match phase {
            Phase::Due => {
                lemma_due_after_succ(t0, 0, st);
                assert(due_after(t0, 0, st) == t0);
            },
            Phase::Clicked => {
                if !run.finished_spec(now) {
                    let r2 = ClickRun { next_ns: run.next_due(i, now), ..run };
                    lemma_due_after_succ(t0, c - 1, st);
                    assert(r2.next_ns >= due_after(t0, c as int, st));
                    assert(n != 0 ==> c < n);
                    match r2.wait_spec(now) {
                        WaitStep::Click => {
                            lemma_due_after_succ(t0, c as int, st);
                        },
                        _ => {},
                    }
                }
            },
            Phase::Waiting => {
                match run.wait_spec(now) {
                    WaitStep::Click => {
                        lemma_due_after_succ(t0, c as int, st);
                    },
                    _ => {},
                }
            },
        }
    }
}

proof fn lemma_trace_unfold(w: Worker, obs: Seq<(Shared, u64)>)
    requires
        obs.len() > 0,
    ensures
        trace(w, obs) == seq![step_spec(w, obs[0].0, obs[0].1).1] + trace(
            step_spec(w, obs[0].0, obs[0].1).0,
            obs.drop_first(),
        ),
        trace(w, obs).len() == obs.len(),
    decreases obs.len(),
{
    if obs.len() > 1 {
        lemma_trace_unfold(step_spec(w, obs[0].0, obs[0].1).0, obs.drop_first());
    } else {
        assert(obs.drop_first().len() == 0);
    }
}

proof fn lemma_prefix_facts(a: WorkerAction, rest: Seq<WorkerAction>, j: int)
    requires
        1 <= j <= rest.len() + 1,
    ensures
        (seq![a] + rest).take(j) == seq![a] + rest.take(j - 1),
        clicks((seq![a] + rest).take(j)) == (if a is Click {
            1nat
        } else {
            0nat
        }) + clicks(rest.take(j - 1)),
        !deactivated((seq![a] + rest).take(j)) ==> !(a is Deactivate) && !deactivated(
            rest.take(j - 1),
        ),
{
    let t = (seq![a] + rest).take(j);
    assert(t =~= seq![a] + rest.take(j - 1));
    assert(t.drop_first() =~= rest.take(j - 1));
    if !deactivated(t) {
        assert(t[0] == a);
        let r = rest.take(j - 1);
        assert forall|x: int| 0 <= x < r.len() implies !(#[trigger] r[x] is Deactivate) by {
            assert(t[x + 1] == r[x]);
        }
    }
}

/// The general form of the run law, from any state a steady clicking run
/// can be in.
proof fn lemma_click_trace(
    w: Worker,
    obs: Seq<(Shared, u64)>,
    n: u64,
    d: u64,
    i: u64,
    t0: u64,
    last: u64,
)
    requires
        click_inv(w, n, d, i, t0, last),
        steady_click_run(obs, n, d, i),
        obs.len() > 0 ==> obs[0].1 >= last,
        n != 0 || run_of(w).count + obs.len() < u64::MAX,
    ensures
        ({
            let ts = trace(w, obs);
            let c = run_of(w).count;
            &&& ts.len() == obs.len()
            &&& forall|j: int|
                #![trigger ts[j]]
                0 <= j < ts.len() && !deactivated(ts.take(j)) ==> {
                    &&& ts[j] is Click || ts[j] is Deactivate || ts[j] is Wait
                    &&& ts[j] is Click ==> {
                        &&& ts[j]->count == c + clicks(ts.take(j)) + 1
                        &&& (n != 0 ==> ts[j]->count <= n)
                        &&& obs[j].1 >= due_after(t0, ts[j]->count - 1, step_ns(i))
                    }
                    &&& ts[j] is Deactivate ==> (n != 0 && c + clicks(ts.take(j)) == n) || (d
                        != 0 && obs[j].1 >= t0 + d * NS_PER_MS)
                    &&& (d != 0 && obs[j].1 >= t0 + d * NS_PER_MS) ==> (ts[j] is Deactivate
                        || ts[j] is Click)
                    &&& (ts[j] is Click && j + 1 < ts.len() && ((n != 0 && ts[j]->count == n)
                        || (d != 0 && obs[j].1 >= t0 + d * NS_PER_MS))) ==> ts[j + 1] is Deactivate
                    &&& obs[j].1 >= (if j == 0 {
                        last as int
                    } else {
                        obs[j - 1].1 as int
                    }) + step_ns(i) ==> (ts[j] is Click || ts[j] is Deactivate)
                }
        }),
    decreases obs.len(),
{
    if obs.len() == 0 {
        assert(trace(w, obs).len() == 0);
        return;
    }
    lemma_trace_unfold(w, obs);
    let s = obs[0].0;
    let now = obs[0].1;
    assert(s.active && s.mode != MODE_HOLD && s.times == n && s.duration_ms == d && s.interval_ms
        == i);
    let (w2, a) = step_spec(w, s, now);
    lemma_click_step(w, s, now, n, d, i, t0, last);
    let ts = trace(w, obs);
    let rest_obs = obs.drop_first();
    let rest = trace(w2, rest_obs);
    let c = run_of(w).count;
    assert(ts == seq![a] + rest);
    assert(steady_click_run(rest_obs, n, d, i)) by {
        assert forall|k: int| 0 <= k < rest_obs.len() implies {
            let s = #[trigger] rest_obs[k].0;
            &&& s.active
            &&& s.mode != MODE_HOLD
            &&& s.times == n
            &&& s.duration_ms == d
            &&& s.interval_ms == i
        } by {
            assert(rest_obs[k] == obs[k + 1]);
        }
        assert forall|x: int, y: int| 0 <= x <= y < rest_obs.len() implies #[trigger] rest_obs[x].1
            <= #[trigger] rest_obs[y].1 by {
            assert(rest_obs[x] == obs[x + 1]);
            assert(rest_obs[y] == obs[y + 1]);
        }
    }
    if !(a is Deactivate) {
        if rest_obs.len() > 0 {
            assert(rest_obs[0] == obs[1]);
            assert(obs[0].1 <= obs[1].1);
        }
        assert(n != 0 || run_of(w2).count + rest_obs.len() < u64::MAX);
        lemma_click_trace(w2, rest_obs, n, d, i, t0, now);
        if rest_obs.len() > 0 && a is Click {
            lemma_trace_unfold(w2, rest_obs);
            let s1 = rest_obs[0].0;
            let now1 = rest_obs[0].1;
            assert(s1 == obs[1].0 && now1 == obs[1].1);
            assert(now1 >= now);
            if (n != 0 && a->count == n) || (d != 0 && now >= t0 + d * NS_PER_MS) {
                assert(run_of(w2).finished_spec(now1));
                lemma_click_step(w2, s1, now1, n, d, i, t0, now);
            }
        }
    }
    assert forall|j: int|
        #![trigger ts[j]]
        0 <= j < ts.len() && !deactivated(ts.take(j)) implies {
        &&& ts[j] is Click || ts[j] is Deactivate || ts[j] is Wait
        &&& ts[j] is Click ==> {
            &&& ts[j]->count == c + clicks(ts.take(j)) + 1
            &&& (n != 0 ==> ts[j]->count <= n)
            &&& obs[j].1 >= due_after(t0, ts[j]->count - 1, step_ns(i))
        }
        &&& ts[j] is Deactivate ==> (n != 0 && c + clicks(ts.take(j)) == n) || (d != 0 && obs[j].1
            >= t0 + d * NS_PER_MS)
        &&& (d != 0 && obs[j].1 >= t0 + d * NS_PER_MS) ==> (ts[j] is Deactivate || ts[j] is Click)
        &&& (ts[j] is Click && j + 1 < ts.len() && ((n != 0 && ts[j]->count == n) || (d != 0
            && obs[j].1 >= t0 + d * NS_PER_MS))) ==> ts[j + 1] is Deactivate
        &&& obs[j].1 >= (if j == 0 {
            last as int
        } else {
            obs[j - 1].1 as int
        }) + step_ns(i) ==> (ts[j] is Click || ts[j] is Deactivate)
    } by {
        if j == 0 {
            assert(ts.take(0) =~= Seq::<WorkerAction>::empty());
            assert(clicks(ts.take(0)) == 0);
            assert(ts[0] == a);
            if j + 1 < ts.len() {
                assert(ts[1] == rest[0]);
            }
        } else {
            lemma_prefix_facts(a, rest, j);
            assert(ts[j] == rest[j - 1]);
            assert(obs[j] == rest_obs[j - 1]);
            if j >= 2 {
                assert(obs[j - 1] == rest_obs[j - 2]);
            }
            if j + 1 < ts.len() {
                assert(ts[j + 1] == rest[j]);
            }
        }
    }
}

/// A clicking run, read steadily (the run stays on until the worker ends it,
/// the settings stay, the time does not go back), behaves as the settings
/// say: it starts with `StartClicking`; its clicks are numbered 1, 2, 3, ...
/// and, with a click-count limit `n`, never pass `n`; click `k` comes no
/// earlier than `t0 + (k - 1) * max(i, 1)` ms; the worker ends the run only
/// when `n` clicks are done or the time limit `d` ms has come; once the time
/// limit has come at most one more click is made, right before the end; the
/// click that reaches `n` is followed by the end; and a step that comes a
/// whole interval or more after the one before it clicks or ends the run, so
/// no click is left out while the worker waits.
pub proof fn lemma_click_run(obs: Seq<(Shared, u64)>, n: u64, d: u64, i: u64)
    requires
        obs.len() > 0,
        steady_click_run(obs, n, d, i),
        obs.len() < u64::MAX,
    ensures
        ({
            let ts = trace(Worker::Idle, obs);
            let t0 = obs[0].1;
            &&& ts.len() == obs.len()
            &&& ts[0] == WorkerAction::StartClicking
            &&& forall|j: int|
                #![trigger ts[j]]
                1 <= j < ts.len() && !deactivated(ts.take(j)) ==> {
                    &&& ts[j] is Click || ts[j] is Deactivate || ts[j] is Wait
                    &&& ts[j] is Click ==> {
                        &&& ts[j]->count == clicks(ts.take(j)) + 1
                        &&& (n != 0 ==> ts[j]->count <= n)
                        &&& obs[j].1 >= t0 + (ts[j]->count - 1) * ((if i >= 1 { i as int } else { 1 }) * 1_000_000)
                    }
                    &&& ts[j] is Deactivate ==> (n != 0 && clicks(ts.take(j)) == n) || (d != 0
                        && obs[j].1 >= t0 + d * NS_PER_MS)
                    &&& (d != 0 && obs[j].1 >= t0 + d * NS_PER_MS) ==> (ts[j] is Deactivate
                        || ts[j] is Click)
                    &&& (ts[j] is Click && j + 1 < ts.len() && ((n != 0 && ts[j]->count == n)
                        || (d != 0 && obs[j].1 >= t0 + d * NS_PER_MS))) ==> ts[j + 1] is Deactivate
                    &&& obs[j].1 >= obs[j - 1].1 + (if i >= 1 { i as int } else { 1 }) * 1_000_000
                        ==> (ts[j] is Click || ts[j] is Deactivate)
                }
        }),
{
    lemma_trace_unfold(Worker::Idle, obs);
    let s = obs[0].0;
    let t0 = obs[0].1;
    assert(s.active && s.mode != MODE_HOLD && s.times == n && s.duration_ms == d && s.interval_ms
        == i);
    let (w2, a) = step_spec(Worker::Idle, s, t0);
    assert(a == WorkerAction::StartClicking);
    let rest_obs = obs.drop_first();
    let ts = trace(Worker::Idle, obs);
    let rest = trace(w2, rest_obs);
    assert(due_after(t0, 0, step_ns(i)) == t0);
    assert(click_inv(w2, n, d, i, t0, t0));
    assert(steady_click_run(rest_obs, n, d, i)) by {
        assert forall|k: int| 0 <= k < rest_obs.len() implies {
            let s = #[trigger] rest_obs[k].0;
            &&& s.active
            &&& s.mode != MODE_HOLD
            &&& s.times == n
            &&& s.duration_ms == d
            &&& s.interval_ms == i
        } by {
            assert(rest_obs[k] == obs[k + 1]);
        }
        assert forall|x: int, y: int| 0 <= x <= y < rest_obs.len() implies #[trigger] rest_obs[x].1
            <= #[trigger] rest_obs[y].1 by {
            assert(rest_obs[x] == obs[x + 1]);
            assert(rest_obs[y] == obs[y + 1]);
        }
    }
    if rest_obs.len() > 0 {
        assert(rest_obs[0] == obs[1]);
        assert(obs[0].1 <= obs[1].1);
    }
    lemma_click_trace(w2, rest_obs, n, d, i, t0, t0);
    assert(ts == seq![a] + rest);
    assert forall|j: int|
        #![trigger ts[j]]
        1 <= j < ts.len() && !deactivated(ts.take(j)) implies {
        &&& ts[j] is Click || ts[j] is Deactivate || ts[j] is Wait
        &&& ts[j] is Click ==> {
            &&& ts[j]->count == clicks(ts.take(j)) + 1
            &&& (n != 0 ==> ts[j]->count <= n)
            &&& obs[j].1 >= due_after(t0, ts[j]->count - 1, step_ns(i))
        }
        &&& ts[j] is Deactivate ==> (n != 0 && clicks(ts.take(j)) == n) || (d != 0 && obs[j].1
            >= t0 + d * NS_PER_MS)
        &&& (d != 0 && obs[j].1 >= t0 + d * NS_PER_MS) ==> (ts[j] is Deactivate || ts[j] is Click)
        &&& (ts[j] is Click && j + 1 < ts.len() && ((n != 0 && ts[j]->count == n) || (d != 0
            && obs[j].1 >= t0 + d * NS_PER_MS))) ==> ts[j + 1] is Deactivate
        &&& obs[j].1 >= obs[j - 1].1 + (if i >= 1 { i as int } else { 1 }) * 1_000_000 ==> (
            ts[j] is Click || ts[j] is Deactivate)
    } by {
        lemma_prefix_facts(a, rest, j);
        assert(ts[j] == rest[j - 1]);
        assert(obs[j] == rest_obs[j - 1]);
        if j >= 2 {
            assert(obs[j - 1] == rest_obs[j - 2]);
        }
        if j + 1 < ts.len() {
            assert(ts[j + 1] == rest[j]);
        }
    }
}

/// The flags that release the button that `down` pressed.
pub open spec fn up_of(down: u32) -> u32 {
    if down == 8 {
        16
    } else {
        4
    }
}

/// The button's release flags while the worker holds it down.
pub open spec fn held(w: Worker) -> Option<u32> {
    match w {
        Worker::Holding { up, .. } => Some(up),
        Worker::Releasing { up } => Some(up),
        _ => None,
    }
}

/// Presses and releases in `ts` alternate, from the state `held`: a press
/// comes only while nothing is held and is followed, before anything else
/// reaches the button, by the release of that same button; clicks and runs
/// start only while nothing is held; and when the worker ends a hold run, the
/// release comes next.
pub open spec fn hold_ok(ts: Seq<WorkerAction>, held: Option<u32>) -> bool
    decreases ts.len(),
{
    if ts.len() == 0 {
        true
    } else {
        let rest = ts.drop_first();
        match ts[0] {
            WorkerAction::Press(d) => held is None && hold_ok(rest, Some(up_of(d))),
            WorkerAction::Release(u) => held == Some(u) && hold_ok(rest, None),
            WorkerAction::Click { .. } => held is None && hold_ok(rest, held),
            WorkerAction::StartClicking => held is None && hold_ok(rest, held),
            WorkerAction::Deactivate => (held is Some ==> (rest.len() > 0 ==> rest[0]
                == WorkerAction::Release(held->0))) && hold_ok(rest, held),
            WorkerAction::Wait(_) => hold_ok(rest, held),
        }
    }
}

/// The button is never left held and never pressed twice: whatever the
/// worker reads, from any state, its presses and releases alternate as
/// `hold_ok` says; in particular a hold run sends exactly one press at its
/// start and one matching release at its end, whether it was switched off or
/// its time limit came.
pub proof fn lemma_hold_trace(w: Worker, obs: Seq<(Shared, u64)>)
    ensures
        hold_ok(trace(w, obs), held(w)),
    decreases obs.len(),
{
    if obs.len() > 0 {
        lemma_trace_unfold(w, obs);
        let (w2, a) = step_spec(w, obs[0].0, obs[0].1);
        let rest_obs = obs.drop_first();
        let rest = trace(w2, rest_obs);
        lemma_hold_trace(w2, rest_obs);
        let ts = trace(w, obs);
        assert(ts.drop_first() =~= rest);
        assert(ts[0] == a);
        if a is Deactivate && held(w) is Some && rest_obs.len() > 0 {
            lemma_trace_unfold(w2, rest_obs);
        }
    }
}

/// The worker's state carries the input flags of the button `b`.
spec fn button_inv(w: Worker, b: u8) -> bool {
    let down: u32 = if b == BUTTON_RIGHT { 8 } else { 2 };
    let up: u32 = if b == BUTTON_RIGHT { 16 } else { 4 };
    match w {
        Worker::Idle => true,
        Worker::Holding { up: u, .. } => u == up,
        Worker::Releasing { up: u } => u == up,
        Worker::Clicking { down: d, up: u, .. } => d == down && u == up,
    }
}

proof fn lemma_button_trace(w: Worker, obs: Seq<(Shared, u64)>, b: u8)
    requires
        button_inv(w, b),
        forall|k: int| 0 <= k < obs.len() ==> (#[trigger] obs[k]).0.button == b,
    ensures
        forall|j: int|
            #![trigger trace(w, obs)[j]]
            0 <= j < trace(w, obs).len() ==> {
                let a = trace(w, obs)[j];
                &&& a is Click ==> a->down == (if b == BUTTON_RIGHT { 8u32 } else { 2u32 })
                    && a->Click_up == (if b == BUTTON_RIGHT { 16u32 } else { 4u32 })
                &&& a is Press ==> a->Press_0 == (if b == BUTTON_RIGHT { 8u32 } else { 2u32 })
                &&& a is Release ==> a->Release_0 == (if b == BUTTON_RIGHT { 16u32 } else { 4u32 })
            },
    decreases obs.len(),
{
    if obs.len() > 0 {
        lemma_trace_unfold(w, obs);
        let (w2, a) = step_spec(w, obs[0].0, obs[0].1);
        assert(obs[0].0.button == b);
        assert(button_inv(w2, b));
        let rest_obs = obs.drop_first();
        assert forall|k: int| 0 <= k < rest_obs.len() implies (#[trigger] rest_obs[k]).0.button == b by {
            assert(rest_obs[k] == obs[k + 1]);
        }
        lemma_button_trace(w2, rest_obs, b);
        let ts = trace(w, obs);
        assert forall|j: int| 0 < j < ts.len() implies ts[j] == trace(w2, rest_obs)[j - 1] by {}
    }
}

/// Every run uses the button chosen in the settings: while the settings name
/// the button `b`, each click of the worker presses and releases the right
/// button for `b == BUTTON_RIGHT` (input flags 8 and 16) and the left one
/// otherwise (2 and 4), and so does each press and release of a hold run.
pub proof fn lemma_run_uses_button(obs: Seq<(Shared, u64)>, b: u8)
    requires
        forall|k: int| 0 <= k < obs.len() ==> (#[trigger] obs[k]).0.button == b,
    ensures
        forall|j: int|
            #![trigger trace(Worker::Idle, obs)[j]]
            0 <= j < trace(Worker::Idle, obs).len() ==> {
                let a = trace(Worker::Idle, obs)[j];
                &&& a is Click ==> a->down == (if b == BUTTON_RIGHT { 8u32 } else { 2u32 })
                    && a->Click_up == (if b == BUTTON_RIGHT { 16u32 } else { 4u32 })
                &&& a is Press ==> a->Press_0 == (if b == BUTTON_RIGHT { 8u32 } else { 2u32 })
                &&& a is Release ==> a->Release_0 == (if b == BUTTON_RIGHT { 16u32 } else { 4u32 })
            },
{
    lemma_button_trace(Worker::Idle, obs, b);
}

proof fn lemma_holding_trace(up: u32, e: u128, obs: Seq<(Shared, u64)>)
    requires
        forall|k: int| 0 <= k < obs.len() ==> (#[trigger] obs[k]).0.active,
    ensures
        forall|j: int|
            #![trigger trace(Worker::Holding { up: up, end_ns: Some(e) }, obs)[j]]
            0 <= j < obs.len() ==> {
                let ts = trace(Worker::Holding { up: up, end_ns: Some(e) }, obs);
                &&& (forall|k: int| 0 <= k <= j ==> (#[trigger] obs[k]).1 < e) ==> ts[j]
                    == WorkerAction::Wait(10_000_000)
                &&& ((forall|k: int| 0 <= k < j ==> (#[trigger] obs[k]).1 < e) && obs[j].1 >= e)
                    ==> ts[j] == WorkerAction::Deactivate && (j + 1 < obs.len() ==> ts[j + 1]
                    == WorkerAction::Release(up))
            },
    decreases obs.len(),
{
    let w = Worker::Holding { up: up, end_ns: Some(e) };
    if obs.len() > 0 {
        lemma_trace_unfold(w, obs);
        assert(obs[0].0.active);
        let (w2, a) = step_spec(w, obs[0].0, obs[0].1);
        let rest_obs = obs.drop_first();
        let ts = trace(w, obs);
        if obs[0].1 < e {
            assert(w2 == w && a == WorkerAction::Wait(10_000_000));
            assert forall|k: int| 0 <= k < rest_obs.len() implies (#[trigger] rest_obs[k]).0.active by {
                assert(rest_obs[k] == obs[k + 1]);
            }
            lemma_holding_trace(up, e, rest_obs);
            assert forall|j: int| 0 <= j < obs.len() implies {
                &&& (forall|k: int| 0 <= k <= j ==> (#[trigger] obs[k]).1 < e) ==> ts[j]
                    == WorkerAction::Wait(10_000_000)
                &&& ((forall|k: int| 0 <= k < j ==> (#[trigger] obs[k]).1 < e) && obs[j].1 >= e)
                    ==> ts[j] == WorkerAction::Deactivate && (j + 1 < obs.len() ==> ts[j + 1]
                    == WorkerAction::Release(up))
            } by {
                if j > 0 {
                    let rs = trace(w, rest_obs);
                    assert(ts[j] == rs[j - 1]);
                    if j + 1 < obs.len() {
                        assert(ts[j + 1] == rs[j]);
                    }
                    if forall|k: int| 0 <= k <= j ==> (#[trigger] obs[k]).1 < e {
                        assert forall|k: int| 0 <= k <= j - 1 implies (#[trigger] rest_obs[k]).1 < e by {
                            assert(rest_obs[k] == obs[k + 1]);
                        }
                    }
                    if (forall|k: int| 0 <= k < j ==> (#[trigger] obs[k]).1 < e) && obs[j].1 >= e {
                        assert forall|k: int| 0 <= k < j - 1 implies (#[trigger] rest_obs[k]).1 < e by {
                            assert(rest_obs[k] == obs[k + 1]);
                        }
                        assert(rest_obs[j - 1] == obs[j]);
                    }
                }
            }
        } else {
            assert(a == WorkerAction::Deactivate);
            assert(w2 == Worker::Releasing { up: up });
            if rest_obs.len() > 0 {
                lemma_trace_unfold(w2, rest_obs);
                assert(ts[1] == WorkerAction::Release(up));
            }
        }
    }
}

/// A hold run lasts its time limit, counted from its start: when the worker
/// starts a hold run of `d > 0` ms at time `t0` (in ns) and the run stays on,
/// it presses the button, then only waits while the time is before
/// `t0 + d * 1_000_000`; at the first step at or after that time it switches
/// the run off, and releases the button at the next step.
pub proof fn lemma_hold_lasts(obs: Seq<(Shared, u64)>, d: u64)
    requires
        obs.len() > 0,
        d > 0,
        forall|k: int|
            0 <= k < obs.len() ==> (#[trigger] obs[k]).0.active && obs[k].0.mode == MODE_HOLD
                && obs[k].0.duration_ms == d,
    ensures
        trace(Worker::Idle, obs)[0] is Press,
        forall|j: int|
            #![trigger trace(Worker::Idle, obs)[j]]
            1 <= j < obs.len() ==> {
                let ts = trace(Worker::Idle, obs);
                let end = obs[0].1 + d * 1_000_000;
                &&& (forall|k: int| 1 <= k <= j ==> (#[trigger] obs[k]).1 < end) ==> ts[j]
                    == WorkerAction::Wait(10_000_000)
                &&& ((forall|k: int| 1 <= k < j ==> (#[trigger] obs[k]).1 < end) && obs[j].1 >= end)
                    ==> ts[j] == WorkerAction::Deactivate && (j + 1 < obs.len() ==> ts[j + 1]
                    is Release)
            },
{
    lemma_trace_unfold(Worker::Idle, obs);
    assert(obs[0].0.active);
    let (w2, a) = step_spec(Worker::Idle, obs[0].0, obs[0].1);
    let e: u128 = (obs[0].1 + d * 1_000_000) as u128;
    let up = w2->Holding_up;
    assert(w2 == Worker::Holding { up: up, end_ns: Some(e) });
    let rest_obs = obs.drop_first();
    assert forall|k: int| 0 <= k < rest_obs.len() implies (#[trigger] rest_obs[k]).0.active by {
        assert(rest_obs[k] == obs[k + 1]);
    }
    lemma_holding_trace(up, e, rest_obs);
    let ts = trace(Worker::Idle, obs);
    let rs = trace(w2, rest_obs);
    assert forall|j: int| #![trigger ts[j]] 1 <= j < obs.len() implies {
        let end = obs[0].1 + d * 1_000_000;
        &&& (forall|k: int| 1 <= k <= j ==> (#[trigger] obs[k]).1 < end) ==> ts[j]
            == WorkerAction::Wait(10_000_000)
        &&& ((forall|k: int| 1 <= k < j ==> (#[trigger] obs[k]).1 < end) && obs[j].1 >= end)
            ==> ts[j] == WorkerAction::Deactivate && (j + 1 < obs.len() ==> ts[j + 1] is Release)
    } by {
        assert(ts[j] == rs[j - 1]);
        if j + 1 < obs.len() {
            assert(ts[j + 1] == rs[j]);
        }
        let end = obs[0].1 + d * 1_000_000;
        if forall|k: int| 1 <= k <= j ==> (#[trigger] obs[k]).1 < end {
            assert forall|k: int| 0 <= k <= j - 1 implies (#[trigger] rest_obs[k]).1 < e by {
                assert(rest_obs[k] == obs[k + 1]);
            }
        }
        if (forall|k: int| 1 <= k < j ==> (#[trigger] obs[k]).1 < end) && obs[j].1 >= end {
            assert forall|k: int| 0 <= k < j - 1 implies (#[trigger] rest_obs[k]).1 < e by {
                assert(rest_obs[k] == obs[k + 1]);
            }
            assert(rest_obs[j - 1] == obs[j]);
        }
    }
}

} // verus!
