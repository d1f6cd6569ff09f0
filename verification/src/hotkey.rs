//! The decisions of the worker that owns the global start/stop key: when to
//! (re-)register it and what a key message does to the run state.

use vstd::prelude::*;

use windows_sys::Win32::UI::Input::KeyboardAndMouse::MOD_NOREPEAT;
use windows_sys::Win32::UI::WindowsAndMessaging::WM_HOTKEY;

verus! {

/// Ticks between two registration attempts while the key is refused (a tick
/// is one pass of the worker, about 20 ms).
pub const RETRY_TICKS: u32 = 100;

/// The id under which the start/stop key is registered.
pub const HOTKEY_ID: i32 = 1;

/// `MOD_NOREPEAT` of windows-sys: a held key posts one message, not a
/// stream of them (0x4000).
#[verifier::external_body]
fn mod_norepeat() -> (m: u32)
    ensures
        m == 0x4000u32,
{
    MOD_NOREPEAT
}

/// The modifier flags of every registration: no modifier key, and no
/// repeated messages while the key is held, so that holding it toggles the
/// run once and a hold run stays a hold run.
pub fn registration_modifiers() -> (m: u32)
    ensures
        m == 0x4000u32,
{
    mod_norepeat()
}

/// `WM_HOTKEY` of windows-sys: the message that a registered hotkey posts
/// (0x0312).
#[verifier::external_body]
fn wm_hotkey() -> (m: u32)
    ensures
        m == 0x0312u32,
{
    WM_HOTKEY
}

/// Whether `message` is the message of a pressed hotkey.
pub fn is_hotkey_message(message: u32) -> (b: bool)
    ensures
        b == (message == 0x0312u32),
{
    message == wm_hotkey()
}

/// The key that is registered, whether that worked, and the worker's tick.
pub struct HotkeyRegistration {
    pub registered_vk: u32,
    pub ok: bool,
    pub tick: u32,
}

impl HotkeyRegistration {
    /// After the first attempt to register `vk`.
    pub fn new(vk: u32, ok: bool) -> (r: HotkeyRegistration)
        ensures
            r.registered_vk == vk,
            r.ok == ok,
            r.tick == 0,
    {
        HotkeyRegistration { registered_vk: vk, ok, tick: 0 }
    }

    /// Whether to register again: when another key is wanted, or, while the
    /// key is refused, every `RETRY_TICKS` ticks (it may be freed).
    pub open spec fn needs_register_spec(self, wanted: u32) -> bool {
        wanted != self.registered_vk || (!self.ok && self.tick % RETRY_TICKS == 0)
    }

    /// One pass of the worker: it registers `wanted` when `needs_register_spec`
    /// says so (with the outcome `result`), then counts the pass. Gives the
    /// state after the pass and whether it registered.
    pub open spec fn pass_spec(self, wanted: u32, result: bool) -> (HotkeyRegistration, bool) {
        let attempt = self.needs_register_spec(wanted);
        let r = if attempt {
            HotkeyRegistration { registered_vk: wanted, ok: result, ..self }
        } else {
            self
        };
        (HotkeyRegistration { tick: ((r.tick + 1) % 0x1_0000_0000) as u32, ..r }, attempt)
    }

    /// Whether to register again, as `needs_register_spec` says.
    pub fn needs_register(&self, wanted: u32) -> (b: bool)
        ensures
            b == self.needs_register_spec(wanted),
    {
        wanted != self.registered_vk || (!self.ok && self.tick % RETRY_TICKS == 0)
    }

    /// Records an attempt to register `vk` and its outcome.
    pub fn record(&mut self, vk: u32, ok: bool)
        ensures
            final(self).registered_vk == vk,
            final(self).ok == ok,
            final(self).tick == old(self).tick,
    {
        self.registered_vk = vk;
        self.ok = ok;
    }

    /// Counts one pass of the worker; the count wraps around.
    pub fn advance(&mut self)
        ensures
            final(self).tick == (old(self).tick as int + 1) % 0x1_0000_0000,
            final(self).registered_vk == old(self).registered_vk,
            final(self).ok == old(self).ok,
    {
        self.tick = self.tick.wrapping_add(1);
    }
}

/// Over passes with the wanted key and the outcome of each registration
/// attempt, whether each pass registered.
pub open spec fn attempts(r: HotkeyRegistration, events: Seq<(u32, bool)>) -> Seq<bool>
    decreases events.len(),
{
    if events.len() == 0 {
        Seq::empty()
    } else {
        let (r2, a) = r.pass_spec(events[0].0, events[0].1);
        seq![a] + attempts(r2, events.drop_first())
    }
}

/// A refused key is retried exactly every `RETRY_TICKS` passes: while the
/// same key stays wanted and every attempt is refused, pass `k` registers
/// exactly when the tick it starts with is a multiple of `RETRY_TICKS`.
pub proof fn lemma_retry_period(r: HotkeyRegistration, events: Seq<(u32, bool)>)
    requires
        !r.ok,
        forall|k: int| 0 <= k < events.len() ==> #[trigger] events[k] == (r.registered_vk, false),
    ensures
        attempts(r, events).len() == events.len(),
        forall|k: int|
            0 <= k < events.len() ==> #[trigger] attempts(r, events)[k] == (((r.tick + k)
                % 0x1_0000_0000) % (RETRY_TICKS as int) == 0),
    decreases events.len(),
{
    if events.len() > 0 {
        let (r2, a) = r.pass_spec(events[0].0, events[0].1);
        assert(events[0] == (r.registered_vk, false));
        let rest = events.drop_first();
        assert forall|k: int| 0 <= k < rest.len() implies #[trigger] rest[k] == (
            r2.registered_vk,
            false,
        ) by {
            assert(rest[k] == events[k + 1]);
        }
        lemma_retry_period(r2, rest);
        let ts = attempts(r, events);
        assert(ts == seq![a] + attempts(r2, rest));
        assert forall|k: int| 0 <= k < events.len() implies #[trigger] attempts(r, events)[k] == (((
        r.tick + k) % 0x1_0000_0000) % (RETRY_TICKS as int) == 0) by {
            if k > 0 {
                assert(ts[k] == attempts(r2, rest)[k - 1]);
                assert((r2.tick + (k - 1)) % 0x1_0000_0000 == (r.tick + k) % 0x1_0000_0000);
            }
        }
    }
}

/// A new key is registered on the next pass, and the outcome recorded.
pub proof fn lemma_key_change(r: HotkeyRegistration, wanted: u32, result: bool)
    requires
        wanted != r.registered_vk,
    ensures
        r.pass_spec(wanted, result).1,
        r.pass_spec(wanted, result).0.registered_vk == wanted,
        r.pass_spec(wanted, result).0.ok == result,
{
}

/// A registered key is left alone while it stays wanted.
pub proof fn lemma_registered_kept(r: HotkeyRegistration, result: bool)
    requires
        r.ok,
    ensures
        !r.pass_spec(r.registered_vk, result).1,
        r.pass_spec(r.registered_vk, result).0.registered_vk == r.registered_vk,
        r.pass_spec(r.registered_vk, result).0.ok,
{
}

/// The run state after the messages `msgs` of one poll, each hotkey message
/// flipping it once.
pub open spec fn after_poll(active: bool, msgs: Seq<u32>) -> bool
    decreases msgs.len(),
{
    if msgs.len() == 0 {
        active
    } else {
        after_poll(
            if msgs[0] == 0x0312u32 {
                !active
            } else {
                active
            },
            msgs.drop_first(),
        )
    }
}

/// The number of hotkey messages among `msgs`.
pub open spec fn hotkey_messages(msgs: Seq<u32>) -> nat
    decreases msgs.len(),
{
    if msgs.len() == 0 {
        0
    } else {
        (if msgs[0] == 0x0312u32 {
            1nat
        } else {
            0nat
        }) + hotkey_messages(msgs.drop_first())
    }
}

/// A poll flips the run state once per hotkey message and leaves it for the
/// others: the state ends flipped exactly when the poll held an odd number of
/// hotkey messages.
pub proof fn lemma_poll(active: bool, msgs: Seq<u32>)
    ensures
        after_poll(active, msgs) == (active != (hotkey_messages(msgs) % 2 == 1)),
    decreases msgs.len(),
{
    if msgs.len() > 0 {
        lemma_poll(
            if msgs[0] == 0x0312u32 {
                !active
            } else {
                active
            },
            msgs.drop_first(),
        );
    }
}

} // verus!
