//! Input vocabulary shared by the window backends and the UI: cursor shapes, buttons, keys.
use vstd::prelude::*;

verus! {

/// Shape of the mouse cursor.
#[derive(Debug, Default, Clone, Copy, PartialEq, Eq, Hash, Structural)]
pub enum CursorShape {
    #[default]
    Default,
    Pointer,
    Text,
    Crosshair,
    Move,
    NwResize,
    NeResize,
    SeResize,
    SwResize,
}

/// A pointer button.
#[derive(Debug, Clone, Copy, PartialEq, Eq, Hash, Structural)]
pub enum Button {
    Primary,
    Secondary,
    Tertiary,
}

/// Whether a button went down or up.
#[derive(Debug, Clone, Copy, PartialEq, Eq, Structural)]
pub enum ButtonState {
    Pressed,
    Released,
}

/// Whether a key went down or up.
#[derive(Debug, Clone, Copy, PartialEq, Eq, Structural)]
pub enum KeyState {
    Pressed,
    Released,
}

/// A key code that has no [`Scancode`] of its own.
#[derive(Debug, Clone, Copy, PartialEq, Eq, Structural)]
pub enum RawKey {
    /// An evdev key code.
    Unix(u32),
    Unidentified,
}

/// The physical key, independent of the keyboard layout.
#[derive(Debug, Clone, Copy, PartialEq, Eq, Structural)]
pub enum Scancode {
    Reserved,
    Esc,
    Num1,
    Num2,
    Num3,
    Num4,
    Num5,
    Num6,
    Num7,
    Num8,
    Num9,
    Num0,
    Minus,
    Equal,
    Backspace,
    Tab,
    Q,
    W,
    E,
    R,
    T,
    Y,
    U,
    I,
    O,
    P,
    BraceLeft,
    BraceRight,
    Enter,
    CtrlLeft,
    A,
    S,
    D,
    F,
    G,
    H,
    J,
    K,
    L,
    Semicolon,
    Apostrophe,
    Grave,
    ShiftLeft,
    Backslash,
    Z,
    X,
    C,
    V,
    B,
    N,
    M,
    Comma,
    Dot,
    Slash,
    ShiftRight,
    AltLeft,
    Space,
    CapsLock,
    NumLock,
    ScrollLock,
    CtrlRight,
    AltRight,
    Home,
    ArrowUp,
    PageUp,
    ArrowLeft,
    ArrowRight,
    End,
    ArrowDown,
    PageDown,
    Insert,
    Delete,
    Unidentified(RawKey),
}

/// The character a key produces under the current layout, if any.
#[derive(Debug, Clone, Copy, PartialEq, Eq, Structural)]
pub enum Keycode {
    Char(char),
    Unidentified(RawKey),
}

/// A key event of the keyboard.
#[derive(Debug, Clone, Copy, PartialEq, Eq, Structural)]
pub enum KeyboardEvent {
    /// `repeat` marks presses that come from holding the key down.
    Key { state: KeyState, scancode: Scancode, keycode: Keycode, repeat: bool },
}

/// Modifier keys held down.
#[derive(Debug, Default, Clone, Copy, PartialEq, Eq, Structural)]
pub struct Modifiers {
    pub shift: bool,
    pub ctrl: bool,
    pub alt: bool,
    pub logo: bool,
}

impl Modifiers {
    pub fn shift(&self) -> (r: bool)
        ensures
            r == self.shift,
    {
        self.shift
    }

    pub fn ctrl(&self) -> (r: bool)
        ensures
            r == self.ctrl,
    {
        self.ctrl
    }
}

} // verus!
