//! Decisions of the wayland backend: registry globals, key and button codes, cursor shapes,
//! input serials.
use crate::input::{Button, ButtonState, CursorShape, RawKey, Scancode};
use crate::window::DEFAULT_LOGICAL_SIZE;
use crate::xml_iterator::str_eq;
use vstd::prelude::*;

verus! {

/// A global of the Wayland registry that the backend binds.
#[derive(Debug, Clone, Copy, PartialEq, Eq, Structural)]
pub enum WaylandGlobal {
    WlCompositor,
    WlDataDeviceManager,
    WlSeat,
    WlShm,
    WpCursorShapeManagerV1,
    WpFractionalScaleManagerV1,
    WpViewporter,
    XdgWmBase,
    ZwpPointerGesturesV1,
}

impl WaylandGlobal {
    /// The interface name the registry announces the global under.
    pub open spec fn interface_name(self) -> Seq<char> {
        match self {
            WaylandGlobal::WlCompositor => "wl_compositor"@,
            WaylandGlobal::WlDataDeviceManager => "wl_data_device_manager"@,
            WaylandGlobal::WlSeat => "wl_seat"@,
            WaylandGlobal::WlShm => "wl_shm"@,
            WaylandGlobal::WpCursorShapeManagerV1 => "wp_cursor_shape_manager_v1"@,
            WaylandGlobal::WpFractionalScaleManagerV1 => "wp_fractional_scale_manager_v1"@,
            WaylandGlobal::WpViewporter => "wp_viewporter"@,
            WaylandGlobal::XdgWmBase => "xdg_wm_base"@,
            WaylandGlobal::ZwpPointerGesturesV1 => "zwp_pointer_gestures_v1"@,
        }
    }

    /// The newest version of the interface the backend speaks.
    pub open spec fn max_version(self) -> u32 {
        match self {
            WaylandGlobal::WlCompositor => 6,
            WaylandGlobal::WlDataDeviceManager => 3,
            WaylandGlobal::WlSeat => 9,
            WaylandGlobal::WlShm => 2,
            WaylandGlobal::WpCursorShapeManagerV1 => 1,
            WaylandGlobal::WpFractionalScaleManagerV1 => 1,
            WaylandGlobal::WpViewporter => 1,
            WaylandGlobal::XdgWmBase => 6,
            WaylandGlobal::ZwpPointerGesturesV1 => 3,
        }
    }
}

/// Which global a `wl_registry.global` announcement offers and the version to bind it at: the
/// announced version, but no newer than the backend speaks. `None` for interfaces the backend
/// does not use.
pub fn registry_global_binding(interface: &str, version: u32) -> (r: Option<(WaylandGlobal, u32)>)
    ensures
        r matches Some((g, v)) ==> interface@ == g.interface_name() && v == (if version
            < g.max_version() {
            version
        } else {
            g.max_version()
        }),
        r is None ==> forall|g: WaylandGlobal| interface@ != #[trigger] g.interface_name(),
{
    let global = if str_eq(interface, "wl_compositor") {
        WaylandGlobal::WlCompositor
    } else if str_eq(interface, "wl_data_device_manager") {
        WaylandGlobal::WlDataDeviceManager
    } else if str_eq(interface, "wl_seat") {
        WaylandGlobal::WlSeat
    } else if str_eq(interface, "wl_shm") {
        WaylandGlobal::WlShm
    } else if str_eq(interface, "wp_cursor_shape_manager_v1") {
        WaylandGlobal::WpCursorShapeManagerV1
    } else if str_eq(interface, "wp_fractional_scale_manager_v1") {
        WaylandGlobal::WpFractionalScaleManagerV1
    } else if str_eq(interface, "wp_viewporter") {
        WaylandGlobal::WpViewporter
    } else if str_eq(interface, "xdg_wm_base") {
        WaylandGlobal::XdgWmBase
    } else if str_eq(interface, "zwp_pointer_gestures_v1") {
        WaylandGlobal::ZwpPointerGesturesV1
    } else {
        return None;
    };
    let max_version: u32 = match global {
        WaylandGlobal::WlCompositor => 6,
        WaylandGlobal::WlDataDeviceManager => 3,
        WaylandGlobal::WlSeat => 9,
        WaylandGlobal::WlShm => 2,
        WaylandGlobal::WpCursorShapeManagerV1 => 1,
        WaylandGlobal::WpFractionalScaleManagerV1 => 1,
        WaylandGlobal::WpViewporter => 1,
        WaylandGlobal::XdgWmBase => 6,
        WaylandGlobal::ZwpPointerGesturesV1 => 3,
    };
    Some((global, if version < max_version { version } else { max_version }))
}

/// The logical size after `xdg_toplevel.configure` with `width` by `height`: that size when
/// either is non-zero; when both are zero the client picks its size, so it keeps the `current`
/// one, or takes the default size when it has none yet.
pub fn configured_logical_size(width: i32, height: i32, current: Option<(u32, u32)>) -> (r: (
    u32,
    u32,
))
    requires
        width >= 0,
        height >= 0,
    ensures
        r == if width > 0 || height > 0 {
            (width as u32, height as u32)
        } else {
            match current {
                Some(size) => size,
                None => DEFAULT_LOGICAL_SIZE,
            }
        },
{
    if width > 0 || height > 0 {
        (width as u32, height as u32)
    } else {
        match current {
            Some(size) => size,
            None => DEFAULT_LOGICAL_SIZE,
        }
    }
}

/// Linux input code of the left mouse button.
pub const BTN_LEFT: u32 = 0x110;

/// Linux input code of the right mouse button.
pub const BTN_RIGHT: u32 = 0x111;

/// Linux input code of the middle mouse button.
pub const BTN_MIDDLE: u32 = 0x112;

/// The pointer button of a Linux input button code, if it is one of the three the UI knows.
pub open spec fn pointer_button_of(button: u32) -> Option<Button> {
    if button == BTN_LEFT {
        Some(Button::Primary)
    } else if button == BTN_RIGHT {
        Some(Button::Secondary)
    } else if button == BTN_MIDDLE {
        Some(Button::Tertiary)
    } else {
        None::<Button>
    }
}

/// The pointer button of a Linux input button code, if it is one of the three the UI knows.
pub fn try_map_pointer_button(button: u32) -> (r: Option<Button>)
    ensures
        r == pointer_button_of(button),
{
    if button == BTN_LEFT {
        Some(Button::Primary)
    } else if button == BTN_RIGHT {
        Some(Button::Secondary)
    } else if button == BTN_MIDDLE {
        Some(Button::Tertiary)
    } else {
        None
    }
}

/// `wl_pointer.button_state`: the button was released.
pub const WL_POINTER_BUTTON_STATE_RELEASED: u32 = 0;

/// `wl_pointer.button_state`: the button was pressed.
pub const WL_POINTER_BUTTON_STATE_PRESSED: u32 = 1;

/// The pointer event of `wl_pointer.button` with Linux button code `button` in `state`: none
/// for buttons the UI does not know and for unknown states.
pub fn pointer_button_event(button: u32, state: u32) -> (r: Option<(ButtonState, Button)>)
    ensures
        r == match pointer_button_of(button) {
            Some(b) => if state == WL_POINTER_BUTTON_STATE_PRESSED {
                Some((ButtonState::Pressed, b))
            } else if state == WL_POINTER_BUTTON_STATE_RELEASED {
                Some((ButtonState::Released, b))
            } else {
                None
            },
            None => None,
        },
{
    let button = match try_map_pointer_button(button) {
        Some(b) => b,
        None => return None,
    };
    if state == WL_POINTER_BUTTON_STATE_PRESSED {
        Some((ButtonState::Pressed, button))
    } else if state == WL_POINTER_BUTTON_STATE_RELEASED {
        Some((ButtonState::Released, button))
    } else {
        None
    }
}

/// Shapes of the cursor-shape-v1 protocol (`wp_cursor_shape_device_v1.shape`).
pub const WP_CURSOR_SHAPE_DEVICE_V1_SHAPE_DEFAULT: u32 = 1;

pub const WP_CURSOR_SHAPE_DEVICE_V1_SHAPE_POINTER: u32 = 4;

pub const WP_CURSOR_SHAPE_DEVICE_V1_SHAPE_CROSSHAIR: u32 = 8;

pub const WP_CURSOR_SHAPE_DEVICE_V1_SHAPE_TEXT: u32 = 9;

pub const WP_CURSOR_SHAPE_DEVICE_V1_SHAPE_MOVE: u32 = 13;

pub const WP_CURSOR_SHAPE_DEVICE_V1_SHAPE_NE_RESIZE: u32 = 20;

pub const WP_CURSOR_SHAPE_DEVICE_V1_SHAPE_NW_RESIZE: u32 = 21;

pub const WP_CURSOR_SHAPE_DEVICE_V1_SHAPE_SE_RESIZE: u32 = 23;

pub const WP_CURSOR_SHAPE_DEVICE_V1_SHAPE_SW_RESIZE: u32 = 24;

/// The cursor-shape-v1 code of a cursor shape.
pub open spec fn cursor_shape_code(shape: CursorShape) -> u32 {
    match shape {
        CursorShape::Default => WP_CURSOR_SHAPE_DEVICE_V1_SHAPE_DEFAULT,
        CursorShape::Pointer => WP_CURSOR_SHAPE_DEVICE_V1_SHAPE_POINTER,
        CursorShape::Text => WP_CURSOR_SHAPE_DEVICE_V1_SHAPE_TEXT,
        CursorShape::Crosshair => WP_CURSOR_SHAPE_DEVICE_V1_SHAPE_CROSSHAIR,
        CursorShape::Move => WP_CURSOR_SHAPE_DEVICE_V1_SHAPE_MOVE,
        CursorShape::NwResize => WP_CURSOR_SHAPE_DEVICE_V1_SHAPE_NW_RESIZE,
        CursorShape::NeResize => WP_CURSOR_SHAPE_DEVICE_V1_SHAPE_NE_RESIZE,
        CursorShape::SeResize => WP_CURSOR_SHAPE_DEVICE_V1_SHAPE_SE_RESIZE,
        CursorShape::SwResize => WP_CURSOR_SHAPE_DEVICE_V1_SHAPE_SW_RESIZE,
    }
}

/// The cursor-shape-v1 code of a cursor shape.
pub fn map_cursor_shape_to_enum(shape: CursorShape) -> (r: u32)
    ensures
        r == cursor_shape_code(shape),
{
    match shape {
        CursorShape::Default => WP_CURSOR_SHAPE_DEVICE_V1_SHAPE_DEFAULT,
        CursorShape::Pointer => WP_CURSOR_SHAPE_DEVICE_V1_SHAPE_POINTER,
        CursorShape::Text => WP_CURSOR_SHAPE_DEVICE_V1_SHAPE_TEXT,
        CursorShape::Crosshair => WP_CURSOR_SHAPE_DEVICE_V1_SHAPE_CROSSHAIR,
        CursorShape::Move => WP_CURSOR_SHAPE_DEVICE_V1_SHAPE_MOVE,
        CursorShape::NwResize => WP_CURSOR_SHAPE_DEVICE_V1_SHAPE_NW_RESIZE,
        CursorShape::NeResize => WP_CURSOR_SHAPE_DEVICE_V1_SHAPE_NE_RESIZE,
        CursorShape::SeResize => WP_CURSOR_SHAPE_DEVICE_V1_SHAPE_SE_RESIZE,
        CursorShape::SwResize => WP_CURSOR_SHAPE_DEVICE_V1_SHAPE_SW_RESIZE,
    }
}

/// Distinct cursor shapes have distinct cursor-shape-v1 codes.
pub proof fn law_cursor_shape_codes_distinct(a: CursorShape, b: CursorShape)
    requires
        a != b,
    ensures
        cursor_shape_code(a) != cursor_shape_code(b),
{
}

/// The name of a cursor shape in cursor themes (the freedesktop cursor specification).
pub fn map_cursor_shape_to_name(shape: CursorShape) -> (r: &'static str)
    ensures
        r@ == match shape {
            CursorShape::Default => "default"@,
            CursorShape::Pointer => "pointer"@,
            CursorShape::Text => "text"@,
            CursorShape::Crosshair => "crosshair"@,
            CursorShape::Move => "move"@,
            CursorShape::NwResize => "nw-resize"@,
            CursorShape::NeResize => "ne-resize"@,
            CursorShape::SeResize => "se-resize"@,
            CursorShape::SwResize => "sw-resize"@,
        },
{
    match shape {
        CursorShape::Default => "default",
        CursorShape::Pointer => "pointer",
        CursorShape::Text => "text",
        CursorShape::Crosshair => "crosshair",
        CursorShape::Move => "move",
        CursorShape::NwResize => "nw-resize",
        CursorShape::NeResize => "ne-resize",
        CursorShape::SeResize => "se-resize",
        CursorShape::SwResize => "sw-resize",
    }
}

/// The scancode of an evdev key code (linux `input-event-codes.h`); codes without a
/// scancode of their own are kept as [`RawKey::Unix`].
pub open spec fn evdev_scancode(key: u32) -> Scancode {
    match key {
        0 => Scancode::Reserved,
        1 => Scancode::Esc,
        2 => Scancode::Num1,
        3 => Scancode::Num2,
        4 => Scancode::Num3,
        5 => Scancode::Num4,
        6 => Scancode::Num5,
        7 => Scancode::Num6,
        8 => Scancode::Num7,
        9 => Scancode::Num8,
        10 => Scancode::Num9,
        11 => Scancode::Num0,
        12 => Scancode::Minus,
        13 => Scancode::Equal,
        14 => Scancode::Backspace,
        15 => Scancode::Tab,
        16 => Scancode::Q,
        17 => Scancode::W,
        18 => Scancode::E,
        19 => Scancode::R,
        20 => Scancode::T,
        21 => Scancode::Y,
        22 => Scancode::U,
        23 => Scancode::I,
        24 => Scancode::O,
        25 => Scancode::P,
        26 => Scancode::BraceLeft,
        27 => Scancode::BraceRight,
        28 => Scancode::Enter,
        29 => Scancode::CtrlLeft,
        30 => Scancode::A,
        31 => Scancode::S,
        32 => Scancode::D,
        33 => Scancode::F,
        34 => Scancode::G,
        35 => Scancode::H,
        36 => Scancode::J,
        37 => Scancode::K,
        38 => Scancode::L,
        39 => Scancode::Semicolon,
        40 => Scancode::Apostrophe,
        41 => Scancode::Grave,
        42 => Scancode::ShiftLeft,
        43 => Scancode::Backslash,
        44 => Scancode::Z,
        45 => Scancode::X,
        46 => Scancode::C,
        47 => Scancode::V,
        48 => Scancode::B,
        49 => Scancode::N,
        50 => Scancode::M,
        51 => Scancode::Comma,
        52 => Scancode::Dot,
        53 => Scancode::Slash,
        54 => Scancode::ShiftRight,
        56 => Scancode::AltLeft,
        57 => Scancode::Space,
        58 => Scancode::CapsLock,
        69 => Scancode::NumLock,
        70 => Scancode::ScrollLock,
        97 => Scancode::CtrlRight,
        100 => Scancode::AltRight,
        102 => Scancode::Home,
        103 => Scancode::ArrowUp,
        104 => Scancode::PageUp,
        105 => Scancode::ArrowLeft,
        106 => Scancode::ArrowRight,
        107 => Scancode::End,
        108 => Scancode::ArrowDown,
        109 => Scancode::PageDown,
        110 => Scancode::Insert,
        111 => Scancode::Delete,
        _ => Scancode::Unidentified(RawKey::Unix(key)),
    }
}

/// The letter keys of the top row, left to right, as on a US keyboard.
pub open spec fn top_letter_row() -> Seq<Scancode> {
    seq![
        Scancode::Q,
        Scancode::W,
        Scancode::E,
        Scancode::R,
        Scancode::T,
        Scancode::Y,
        Scancode::U,
        Scancode::I,
        Scancode::O,
        Scancode::P,
    ]
}

/// The letter keys of the middle row, left to right.
pub open spec fn middle_letter_row() -> Seq<Scancode> {
    seq![
        Scancode::A,
        Scancode::S,
        Scancode::D,
        Scancode::F,
        Scancode::G,
        Scancode::H,
        Scancode::J,
        Scancode::K,
        Scancode::L,
    ]
}

/// The letter keys of the bottom row, left to right.
pub open spec fn bottom_letter_row() -> Seq<Scancode> {
    seq![Scancode::Z, Scancode::X, Scancode::C, Scancode::V, Scancode::B, Scancode::N, Scancode::M]
}

/// The digit keys, left to right: 1 to 9, then 0.
pub open spec fn digit_row() -> Seq<Scancode> {
    seq![
        Scancode::Num1,
        Scancode::Num2,
        Scancode::Num3,
        Scancode::Num4,
        Scancode::Num5,
        Scancode::Num6,
        Scancode::Num7,
        Scancode::Num8,
        Scancode::Num9,
        Scancode::Num0,
    ]
}

/// Linux numbers the keys of each row of the keyboard consecutively, left to right
/// (input-event-codes.h): `KEY_1` to `KEY_0` are 2 to 11, `KEY_Q` to `KEY_P` are 16 to 25,
/// `KEY_A` to `KEY_L` are 30 to 38 and `KEY_Z` to `KEY_M` are 44 to 50.
pub proof fn law_evdev_key_rows(i: int)
    ensures
        0 <= i < 10 ==> evdev_scancode((2 + i) as u32) == digit_row()[i],
        0 <= i < 10 ==> evdev_scancode((16 + i) as u32) == top_letter_row()[i],
        0 <= i < 9 ==> evdev_scancode((30 + i) as u32) == middle_letter_row()[i],
        0 <= i < 7 ==> evdev_scancode((44 + i) as u32) == bottom_letter_row()[i],
{
}

/// The other keys with a scancode, by their input-event-codes.h numbers.
pub proof fn law_evdev_named_keys()
    ensures
        evdev_scancode(0) == Scancode::Reserved,
        evdev_scancode(1) == Scancode::Esc,
        evdev_scancode(12) == Scancode::Minus,
        evdev_scancode(13) == Scancode::Equal,
        evdev_scancode(14) == Scancode::Backspace,
        evdev_scancode(15) == Scancode::Tab,
        evdev_scancode(26) == Scancode::BraceLeft,
        evdev_scancode(27) == Scancode::BraceRight,
        evdev_scancode(28) == Scancode::Enter,
        evdev_scancode(29) == Scancode::CtrlLeft,
        evdev_scancode(39) == Scancode::Semicolon,
        evdev_scancode(40) == Scancode::Apostrophe,
        evdev_scancode(41) == Scancode::Grave,
        evdev_scancode(42) == Scancode::ShiftLeft,
        evdev_scancode(43) == Scancode::Backslash,
        evdev_scancode(51) == Scancode::Comma,
        evdev_scancode(52) == Scancode::Dot,
        evdev_scancode(53) == Scancode::Slash,
        evdev_scancode(54) == Scancode::ShiftRight,
        evdev_scancode(56) == Scancode::AltLeft,
        evdev_scancode(57) == Scancode::Space,
        evdev_scancode(58) == Scancode::CapsLock,
        evdev_scancode(69) == Scancode::NumLock,
        evdev_scancode(70) == Scancode::ScrollLock,
        evdev_scancode(97) == Scancode::CtrlRight,
        evdev_scancode(100) == Scancode::AltRight,
        evdev_scancode(102) == Scancode::Home,
        evdev_scancode(103) == Scancode::ArrowUp,
        evdev_scancode(104) == Scancode::PageUp,
        evdev_scancode(105) == Scancode::ArrowLeft,
        evdev_scancode(106) == Scancode::ArrowRight,
        evdev_scancode(107) == Scancode::End,
        evdev_scancode(108) == Scancode::ArrowDown,
        evdev_scancode(109) == Scancode::PageDown,
        evdev_scancode(110) == Scancode::Insert,
        evdev_scancode(111) == Scancode::Delete,
{
}

/// Different key codes give different scancodes; a code without a scancode of its own is kept
/// in the unidentified one.
pub proof fn law_evdev_scancode_injective(a: u32, b: u32)
    requires
        evdev_scancode(a) == evdev_scancode(b),
    ensures
        a == b,
{
}

/// The scancode of the evdev key code that a `wl_keyboard.key` event carries.
pub fn map_keyboard_key(key: u32) -> (r: Scancode)
    ensures
        r == evdev_scancode(key),
{
    match key {
        0 => Scancode::Reserved,
        1 => Scancode::Esc,
        2 => Scancode::Num1,
        3 => Scancode::Num2,
        4 => Scancode::Num3,
        5 => Scancode::Num4,
        6 => Scancode::Num5,
        7 => Scancode::Num6,
        8 => Scancode::Num7,
        9 => Scancode::Num8,
        10 => Scancode::Num9,
        11 => Scancode::Num0,
        12 => Scancode::Minus,
        13 => Scancode::Equal,
        14 => Scancode::Backspace,
        15 => Scancode::Tab,
        16 => Scancode::Q,
        17 => Scancode::W,
        18 => Scancode::E,
        19 => Scancode::R,
        20 => Scancode::T,
        21 => Scancode::Y,
        22 => Scancode::U,
        23 => Scancode::I,
        24 => Scancode::O,
        25 => Scancode::P,
        26 => Scancode::BraceLeft,
        27 => Scancode::BraceRight,
        28 => Scancode::Enter,
        29 => Scancode::CtrlLeft,
        30 => Scancode::A,
        31 => Scancode::S,
        32 => Scancode::D,
        33 => Scancode::F,
        34 => Scancode::G,
        35 => Scancode::H,
        36 => Scancode::J,
        37 => Scancode::K,
        38 => Scancode::L,
        39 => Scancode::Semicolon,
        40 => Scancode::Apostrophe,
        41 => Scancode::Grave,
        42 => Scancode::ShiftLeft,
        43 => Scancode::Backslash,
        44 => Scancode::Z,
        45 => Scancode::X,
        46 => Scancode::C,
        47 => Scancode::V,
        48 => Scancode::B,
        49 => Scancode::N,
        50 => Scancode::M,
        51 => Scancode::Comma,
        52 => Scancode::Dot,
        53 => Scancode::Slash,
        54 => Scancode::ShiftRight,
        56 => Scancode::AltLeft,
        57 => Scancode::Space,
        58 => Scancode::CapsLock,
        69 => Scancode::NumLock,
        70 => Scancode::ScrollLock,
        97 => Scancode::CtrlRight,
        100 => Scancode::AltRight,
        102 => Scancode::Home,
        103 => Scancode::ArrowUp,
        104 => Scancode::PageUp,
        105 => Scancode::ArrowLeft,
        106 => Scancode::ArrowRight,
        107 => Scancode::End,
        108 => Scancode::ArrowDown,
        109 => Scancode::PageDown,
        110 => Scancode::Insert,
        111 => Scancode::Delete,
        other => Scancode::Unidentified(RawKey::Unix(other)),
    }
}

/// Different key codes give different scancodes: no two keys are confused, and a code without
/// a scancode of its own is passed on unchanged.
pub proof fn law_map_keyboard_key_injective(a: u32, b: u32)
    requires
        a != b,
    ensures
        evdev_scancode(a) != evdev_scancode(b),
{
}

/// The events whose serial later requests must quote.
#[derive(Debug, Clone, Copy, PartialEq, Eq, Structural)]
pub enum SerialType {
    PointerEnter,
    KeyboardEnter,
}

/// The last serial of each kind of enter event, while the device is entered.
#[derive(Debug, Default)]
pub struct SerialTracker {
    pointer_enter: Option<u32>,
    keyboard_enter: Option<u32>,
}

impl SerialTracker {
    /// The serial remembered for `ty`.
    pub closed spec fn serial(&self, ty: SerialType) -> Option<u32> {
        match ty {
            SerialType::PointerEnter => self.pointer_enter,
            SerialType::KeyboardEnter => self.keyboard_enter,
        }
    }

    /// Remembers `serial` for `ty`.
    pub fn update_serial(&mut self, ty: SerialType, serial: u32)
        ensures
            final(self).serial(ty) == Some(serial),
            forall|other: SerialType| other != ty ==> final(self).serial(other) == old(self).serial(other),
    {
        match ty {
            SerialType::PointerEnter => self.pointer_enter = Some(serial),
            SerialType::KeyboardEnter => self.keyboard_enter = Some(serial),
        }
    }

    /// Forgets the serial of `ty`.
    pub fn reset_serial(&mut self, ty: SerialType)
        ensures
            final(self).serial(ty) is None,
            forall|other: SerialType| other != ty ==> final(self).serial(other) == old(self).serial(other),
    {
        match ty {
            SerialType::PointerEnter => self.pointer_enter = None,
            SerialType::KeyboardEnter => self.keyboard_enter = None,
        }
    }

    /// The serial a clipboard selection is set with: that of the pointer's enter, else that
    /// of the keyboard's; `None` when neither device is entered.
    pub fn selection_serial(&self) -> (r: Option<u32>)
        ensures
            r == match self.serial(SerialType::PointerEnter) {
                Some(serial) => Some(serial),
                None => self.serial(SerialType::KeyboardEnter),
            },
    {
        match self.get_serial(SerialType::PointerEnter) {
            Some(serial) => Some(serial),
            None => self.get_serial(SerialType::KeyboardEnter),
        }
    }

    /// The serial remembered for `ty`.
    pub fn get_serial(&self, ty: SerialType) -> (r: Option<u32>)
        ensures
            r == self.serial(ty),
    {
        match ty {
            SerialType::PointerEnter => self.pointer_enter,
            SerialType::KeyboardEnter => self.keyboard_enter,
        }
    }
}

} // verus!
