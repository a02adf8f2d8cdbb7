//! Keyboard keys of the Wayland backend: turning `wl_keyboard.key` events into key events and
//! repeating a held key while the compositor's repeat settings ask for it.
//!
//! The backend feeds the compositor's events in and carries out the returned timer commands;
//! each expiry of the timer it reports back becomes repeated presses of the held key.
use crate::input::{KeyState, KeyboardEvent, Keycode, RawKey, Scancode};
use crate::window::wayland::{evdev_scancode, map_keyboard_key};
use vstd::prelude::*;

verus! {

/// `wl_keyboard.key_state`: the key was released.
pub const WL_KEYBOARD_KEY_STATE_RELEASED: u32 = 0;

/// `wl_keyboard.key_state`: the key was pressed.
pub const WL_KEYBOARD_KEY_STATE_PRESSED: u32 = 1;

/// `wl_keyboard.key_state`: the compositor repeated the key.
pub const WL_KEYBOARD_KEY_STATE_REPEATED: u32 = 2;

/// Offset between evdev key codes (where escape is 1) and the key codes of the evdev xkb
/// keymap (where escape is 9).
pub const EVDEV_OFFSET: u32 = 8;

/// The xkb key code of an evdev key code.
pub fn xkb_keycode(key: u32) -> (r: u32)
    requires
        key + EVDEV_OFFSET <= u32::MAX,
    ensures
        r == key + EVDEV_OFFSET,
{
    key + EVDEV_OFFSET
}

/// `v` is a Unicode scalar value: a code point that is not a surrogate.
pub open spec fn is_scalar_value(v: u32) -> bool {
    v <= 0xD7FF || (0xE000 <= v && v <= 0x10FFFF)
}

/// The character whose scalar value is `v`, if `v` is one.
///
/// Trusted: calls `char::from_u32`, which returns that character, and `None` for surrogates
/// and for values past `0x10FFFF`.
#[verifier::external_body]
fn char_from_u32(v: u32) -> (r: Option<char>)
    ensures
        r == (if is_scalar_value(v) {
            Some(v as char)
        } else {
            None
        }),
{
    char::from_u32(v)
}

/// The key code of a key whose symbol has the UTF-32 value `utf32`: that character when it is
/// one, else the evdev key code itself.
pub open spec fn keycode_of(key: u32, utf32: u32) -> Keycode {
    if is_scalar_value(utf32) {
        Keycode::Char(utf32 as char)
    } else {
        Keycode::Unidentified(RawKey::Unix(key))
    }
}

/// The key code of evdev key `key` whose symbol has the UTF-32 value `utf32`.
pub fn keycode_from_utf32(key: u32, utf32: u32) -> (r: Keycode)
    ensures
        r == keycode_of(key, utf32),
{
    match char_from_u32(utf32) {
        Some(c) => Keycode::Char(c),
        None => Keycode::Unidentified(RawKey::Unix(key)),
    }
}

/// How a held key repeats, in nanoseconds: the time between repeats and the time from the
/// press to the first repeat.
#[derive(Debug, Clone, Copy, PartialEq, Eq, Structural)]
pub struct KeyRepeatInfo {
    pub rate_nanos: u64,
    pub delay_nanos: u64,
}

/// The repeat settings of a `wl_keyboard.repeat_info` event with `rate` repeats per second and
/// a `delay` in milliseconds: none when the rate is zero.
pub open spec fn repeat_info_of(rate: i32, delay: i32) -> Option<KeyRepeatInfo> {
    if rate == 0 {
        None
    } else {
        Some(
            KeyRepeatInfo {
                rate_nanos: (1_000_000_000int / (rate as int)) as u64,
                delay_nanos: (delay * 1_000_000) as u64,
            },
        )
    }
}

/// What the backend does with its key repeat timer.
#[derive(Debug, Clone, Copy, PartialEq, Eq, Structural)]
pub enum RepeatTimerCommand {
    /// Fire after `delay_nanos`, then every `interval_nanos`.
    Arm { interval_nanos: u64, delay_nanos: u64 },
    Disarm,
    Leave,
}

/// Key repetition: the repeat settings the compositor announced, and the key being repeated.
#[derive(Debug, Clone, Copy)]
pub struct KeyRepeat {
    pub info: Option<KeyRepeatInfo>,
    pub held: Option<(Scancode, Keycode)>,
}

/// The key event of `wl_keyboard.key` with evdev key `key` in `state`, whose symbol has the
/// UTF-32 value `utf32`: presses and releases become events; the compositor's own repeats and
/// unknown states do not, as the backend repeats keys itself.
pub open spec fn key_event_of(key: u32, state: u32, utf32: u32) -> Option<KeyboardEvent> {
    if state == WL_KEYBOARD_KEY_STATE_PRESSED {
        Some(
            KeyboardEvent::Key {
                state: KeyState::Pressed,
                scancode: evdev_scancode(key),
                keycode: keycode_of(key, utf32),
                repeat: false,
            },
        )
    } else if state == WL_KEYBOARD_KEY_STATE_RELEASED {
        Some(
            KeyboardEvent::Key {
                state: KeyState::Released,
                scancode: evdev_scancode(key),
                keycode: keycode_of(key, utf32),
                repeat: false,
            },
        )
    } else {
        None
    }
}

/// The repeat state after `wl_keyboard.key` and the timer command it gives. A press of a key
/// that repeats (`key_repeats`, as the keymap says) starts repeating it when repetition is on;
/// a release stops any repetition; anything else changes nothing.
pub open spec fn key_step(s: KeyRepeat, key: u32, state: u32, utf32: u32, key_repeats: bool) -> (
    KeyRepeat,
    RepeatTimerCommand,
) {
    if state == WL_KEYBOARD_KEY_STATE_PRESSED {
        match s.info {
            Some(info) => if key_repeats {
                (
                    KeyRepeat { held: Some((evdev_scancode(key), keycode_of(key, utf32))), ..s },
                    RepeatTimerCommand::Arm {
                        interval_nanos: info.rate_nanos,
                        delay_nanos: info.delay_nanos,
                    },
                )
            } else {
                (s, RepeatTimerCommand::Leave)
            },
            None => (s, RepeatTimerCommand::Leave),
        }
    } else if state == WL_KEYBOARD_KEY_STATE_RELEASED {
        (KeyRepeat { held: None, ..s }, RepeatTimerCommand::Disarm)
    } else {
        (s, RepeatTimerCommand::Leave)
    }
}

/// The presses that `expirations` expiries of the repeat timer produce.
pub open spec fn repeat_events_of(s: KeyRepeat, expirations: nat) -> Seq<KeyboardEvent> {
    match s.held {
        Some((scancode, keycode)) => Seq::new(
            expirations,
            |i: int| KeyboardEvent::Key { state: KeyState::Pressed, scancode, keycode, repeat: true },
        ),
        None => Seq::empty(),
    }
}

impl KeyRepeat {
    /// No repeat settings yet and no key held.
    pub fn new() -> (r: Self)
        ensures
            r.info is None,
            r.held is None,
    {
        KeyRepeat { info: None, held: None }
    }

    /// `wl_keyboard.repeat_info` with `rate` repeats per second after a `delay` in
    /// milliseconds; a rate of zero turns repetition off whatever the delay.
    pub fn on_repeat_info(&mut self, rate: i32, delay: i32)
        requires
            rate >= 0,
            delay >= 0,
        ensures
            final(self).info == repeat_info_of(rate, delay),
            final(self).held == old(self).held,
    {
        if rate == 0 {
            self.info = None;
        } else {
            let rate_nanos: u64 = 1_000_000_000u64 / (rate as u64);
            let delay_nanos: u64 = (delay as u64) * 1_000_000u64;
            self.info = Some(KeyRepeatInfo { rate_nanos, delay_nanos });
        }
    }

    /// `wl_keyboard.key` for evdev key `key` in `state`, whose symbol has the UTF-32 value
    /// `utf32` and which repeats when `key_repeats`: the event to queue and the command for the
    /// repeat timer.
    pub fn on_key(&mut self, key: u32, state: u32, utf32: u32, key_repeats: bool) -> (r: (
        Option<KeyboardEvent>,
        RepeatTimerCommand,
    ))
        ensures
            r.0 == key_event_of(key, state, utf32),
            (*final(self), r.1) == key_step(*old(self), key, state, utf32, key_repeats),
    {
        let scancode = map_keyboard_key(key);
        let keycode = keycode_from_utf32(key, utf32);
        if state == WL_KEYBOARD_KEY_STATE_PRESSED {
            let event = KeyboardEvent::Key {
                state: KeyState::Pressed,
                scancode,
                keycode,
                repeat: false,
            };
            let command = match self.info {
                Some(info) => {
                    if key_repeats {
                        self.held = Some((scancode, keycode));
                        RepeatTimerCommand::Arm {
                            interval_nanos: info.rate_nanos,
                            delay_nanos: info.delay_nanos,
                        }
                    } else {
                        RepeatTimerCommand::Leave
                    }
                },
                None => RepeatTimerCommand::Leave,
            };
            (Some(event), command)
        } else if state == WL_KEYBOARD_KEY_STATE_RELEASED {
            let event = KeyboardEvent::Key {
                state: KeyState::Released,
                scancode,
                keycode,
                repeat: false,
            };
            self.held = None;
            (Some(event), RepeatTimerCommand::Disarm)
        } else {
            (None, RepeatTimerCommand::Leave)
        }
    }

    /// The presses to queue after the repeat timer expired `expirations` times: one repeated
    /// press of the held key per expiry, none when no key is held.
    pub fn repeat_events(&self, expirations: u64) -> (r: Vec<KeyboardEvent>)
        ensures
            r@ == repeat_events_of(*self, expirations as nat),
    {
        let mut out: Vec<KeyboardEvent> = Vec::new();
        match self.held {
            Some((scancode, keycode)) => {
                let mut i: u64 = 0;
                while i < expirations
                    invariant
                        i <= expirations,
                        self.held == Some((scancode, keycode)),
                        out@ == repeat_events_of(*self, i as nat),
                    decreases expirations - i,
                {
                    out.push(
                        KeyboardEvent::Key { state: KeyState::Pressed, scancode, keycode, repeat: true },
                    );
                    i += 1;
                    assert(out@ =~= repeat_events_of(*self, i as nat));
                }
            },
            None => {
                assert(out@ =~= repeat_events_of(*self, 0));
            },
        }
        out
    }
}

/// Releasing a key stops repetition: afterwards the timer produces no presses, however often
/// it expires.
pub proof fn law_release_stops_repeat(s: KeyRepeat, key: u32, utf32: u32, key_repeats: bool, n: nat)
    ensures
        repeat_events_of(key_step(s, key, WL_KEYBOARD_KEY_STATE_RELEASED, utf32, key_repeats).0, n)
            == Seq::<KeyboardEvent>::empty(),
        key_step(s, key, WL_KEYBOARD_KEY_STATE_RELEASED, utf32, key_repeats).1
            == RepeatTimerCommand::Disarm,
{
}

/// While repetition is on, pressing a key that repeats arms the timer with the announced
/// settings, and each expiry then repeats that very press.
pub proof fn law_held_key_repeats_its_press(
    s: KeyRepeat,
    key: u32,
    utf32: u32,
    n: nat,
    i: int,
)
    requires
        s.info is Some,
        0 <= i < n,
    ensures
        ({
            let (after, command) = key_step(s, key, WL_KEYBOARD_KEY_STATE_PRESSED, utf32, true);
            let press = key_event_of(key, WL_KEYBOARD_KEY_STATE_PRESSED, utf32)->Some_0;
            &&& command == RepeatTimerCommand::Arm {
                interval_nanos: s.info->Some_0.rate_nanos,
                delay_nanos: s.info->Some_0.delay_nanos,
            }
            &&& repeat_events_of(after, n).len() == n
            &&& repeat_events_of(after, n)[i] == (match press {
                KeyboardEvent::Key { state, scancode, keycode, .. } => KeyboardEvent::Key {
                    state,
                    scancode,
                    keycode,
                    repeat: true,
                },
            })
        }),
{
}

/// Pressing a key that does not repeat leaves the repetition of an earlier held key running.
pub proof fn law_non_repeating_press_keeps_held_key(s: KeyRepeat, key: u32, utf32: u32)
    ensures
        key_step(s, key, WL_KEYBOARD_KEY_STATE_PRESSED, utf32, false) == (
            s,
            RepeatTimerCommand::Leave,
        ),
{
}

} // verus!
