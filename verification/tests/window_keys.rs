use shin::input::{KeyState, KeyboardEvent, Keycode, RawKey, Scancode};
use shin::window::key_repeat::{
    keycode_from_utf32, xkb_keycode, KeyRepeat, KeyRepeatInfo, RepeatTimerCommand,
    WL_KEYBOARD_KEY_STATE_PRESSED, WL_KEYBOARD_KEY_STATE_RELEASED, WL_KEYBOARD_KEY_STATE_REPEATED,
};
use shin::window::scroll::{
    AxisPair, ScrollDelta, ScrollFrame, WL_POINTER_AXIS_HORIZONTAL_SCROLL,
    WL_POINTER_AXIS_VERTICAL_SCROLL,
};
use shin::window::wayland::{configured_logical_size, registry_global_binding, WaylandGlobal};

// evdev code of the `a` key
const KEY_A: u32 = 30;
// evdev code of the left shift key
const KEY_LEFTSHIFT: u32 = 42;

fn press(scancode: Scancode, keycode: Keycode, repeat: bool) -> KeyboardEvent {
    KeyboardEvent::Key { state: KeyState::Pressed, scancode, keycode, repeat }
}

#[test]
fn registry_binds_known_globals_capped() {
    assert_eq!(registry_global_binding("wl_seat", 12), Some((WaylandGlobal::WlSeat, 9)));
    assert_eq!(registry_global_binding("wl_seat", 5), Some((WaylandGlobal::WlSeat, 5)));
    assert_eq!(registry_global_binding("wl_compositor", 6), Some((WaylandGlobal::WlCompositor, 6)));
    assert_eq!(
        registry_global_binding("wl_data_device_manager", 3),
        Some((WaylandGlobal::WlDataDeviceManager, 3))
    );
    assert_eq!(registry_global_binding("wl_shm", 1), Some((WaylandGlobal::WlShm, 1)));
    assert_eq!(
        registry_global_binding("zwp_pointer_gestures_v1", 4),
        Some((WaylandGlobal::ZwpPointerGesturesV1, 3))
    );
    assert_eq!(registry_global_binding("xdg_wm_base", 7), Some((WaylandGlobal::XdgWmBase, 6)));
    assert_eq!(registry_global_binding("wp_viewporter", 1), Some((WaylandGlobal::WpViewporter, 1)));
    assert_eq!(
        registry_global_binding("wp_fractional_scale_manager_v1", 2),
        Some((WaylandGlobal::WpFractionalScaleManagerV1, 1))
    );
    assert_eq!(
        registry_global_binding("wp_cursor_shape_manager_v1", 1),
        Some((WaylandGlobal::WpCursorShapeManagerV1, 1))
    );
    assert_eq!(registry_global_binding("wl_output", 4), None);
    assert_eq!(registry_global_binding("", 1), None);
}

#[test]
fn keycodes_from_utf32() {
    assert_eq!(xkb_keycode(1), 9);
    assert_eq!(keycode_from_utf32(KEY_A, 'a' as u32), Keycode::Char('a'));
    assert_eq!(keycode_from_utf32(KEY_A, 0x1F600), Keycode::Char('\u{1F600}'));
    // no symbol, a surrogate, and a value past the last code point
    assert_eq!(keycode_from_utf32(KEY_LEFTSHIFT, 0xD800), Keycode::Unidentified(RawKey::Unix(42)));
    assert_eq!(keycode_from_utf32(7, 0x110000), Keycode::Unidentified(RawKey::Unix(7)));
}

#[test]
fn repeat_info_settings() {
    let mut repeat = KeyRepeat::new();
    repeat.on_repeat_info(25, 600);
    assert_eq!(repeat.info, Some(KeyRepeatInfo { rate_nanos: 40_000_000, delay_nanos: 600_000_000 }));
    repeat.on_repeat_info(3, 0);
    assert_eq!(repeat.info, Some(KeyRepeatInfo { rate_nanos: 333_333_333, delay_nanos: 0 }));
    // a rate of zero turns repetition off
    repeat.on_repeat_info(0, 600);
    assert_eq!(repeat.info, None);
}

#[test]
fn held_key_repeats_until_released() {
    let mut repeat = KeyRepeat::new();
    repeat.on_repeat_info(25, 600);

    let (event, command) = repeat.on_key(KEY_A, WL_KEYBOARD_KEY_STATE_PRESSED, 'a' as u32, true);
    assert_eq!(event, Some(press(Scancode::A, Keycode::Char('a'), false)));
    assert_eq!(
        command,
        RepeatTimerCommand::Arm { interval_nanos: 40_000_000, delay_nanos: 600_000_000 }
    );
    assert_eq!(repeat.held, Some((Scancode::A, Keycode::Char('a'))));
    let events = repeat.repeat_events(3);
    assert_eq!(events.len(), 3);
    for e in events {
        assert_eq!(e, press(Scancode::A, Keycode::Char('a'), true));
    }

    // shift does not repeat: `a` keeps repeating. xkb gives shift no character, 0, which is
    // still a scalar value
    let (event, command) =
        repeat.on_key(KEY_LEFTSHIFT, WL_KEYBOARD_KEY_STATE_PRESSED, 0, false);
    assert_eq!(event, Some(press(Scancode::ShiftLeft, Keycode::Char('\0'), false)));
    assert_eq!(command, RepeatTimerCommand::Leave);
    assert_eq!(repeat.held, Some((Scancode::A, Keycode::Char('a'))));

    // the compositor's own repeats are dropped
    let (event, command) = repeat.on_key(KEY_A, WL_KEYBOARD_KEY_STATE_REPEATED, 'a' as u32, true);
    assert_eq!(event, None);
    assert_eq!(command, RepeatTimerCommand::Leave);

    let (event, command) = repeat.on_key(KEY_A, WL_KEYBOARD_KEY_STATE_RELEASED, 'a' as u32, true);
    assert_eq!(
        event,
        Some(KeyboardEvent::Key {
            state: KeyState::Released,
            scancode: Scancode::A,
            keycode: Keycode::Char('a'),
            repeat: false,
        })
    );
    assert_eq!(command, RepeatTimerCommand::Disarm);
    assert_eq!(repeat.held, None);
    assert!(repeat.repeat_events(5).is_empty());
}

#[test]
fn no_repeat_without_settings() {
    let mut repeat = KeyRepeat::new();
    let (event, command) = repeat.on_key(KEY_A, WL_KEYBOARD_KEY_STATE_PRESSED, 'a' as u32, true);
    assert_eq!(event, Some(press(Scancode::A, Keycode::Char('a'), false)));
    assert_eq!(command, RepeatTimerCommand::Leave);
    assert_eq!(repeat.held, None);
    assert!(repeat.repeat_events(2).is_empty());
    // unknown key states give nothing
    assert_eq!(repeat.on_key(KEY_A, 7, 'a' as u32, true).0, None);
}

#[test]
fn toplevel_configure_sizes() {
    assert_eq!(configured_logical_size(1024, 768, Some((10, 10))), (1024, 768));
    // one non-zero side is taken as given
    assert_eq!(configured_logical_size(0, 300, Some((10, 10))), (0, 300));
    // both zero: the client decides
    assert_eq!(configured_logical_size(0, 0, Some((800, 600))), (800, 600));
    assert_eq!(configured_logical_size(0, 0, None), (640, 480));
}

#[test]
fn scroll_frame_sums_and_prefers_precise_sources() {
    let mut frame = ScrollFrame::new();
    assert_eq!(frame.on_frame(), None);

    // continuous scrolling adds up within a frame
    frame.on_axis(WL_POINTER_AXIS_VERTICAL_SCROLL, 256);
    frame.on_axis(WL_POINTER_AXIS_VERTICAL_SCROLL, 512);
    frame.on_axis(WL_POINTER_AXIS_HORIZONTAL_SCROLL, -128);
    assert_eq!(frame.axis, Some(AxisPair { vertical: 768, horizontal: -128 }));
    assert_eq!(frame.on_frame(), Some(ScrollDelta::Axis { x: -128, y: 768 }));
    assert_eq!(frame, ScrollFrame::new());

    // detents win over continuous scrolling
    frame.on_axis(WL_POINTER_AXIS_VERTICAL_SCROLL, 2560);
    frame.on_axis_discrete(WL_POINTER_AXIS_VERTICAL_SCROLL, 1);
    assert_eq!(frame.on_frame(), Some(ScrollDelta::Discrete { x: 0, y: 1 }));

    // high-resolution steps win over both
    frame.on_axis(WL_POINTER_AXIS_VERTICAL_SCROLL, 2560);
    frame.on_axis_discrete(WL_POINTER_AXIS_VERTICAL_SCROLL, 1);
    frame.on_axis_value120(WL_POINTER_AXIS_VERTICAL_SCROLL, 60);
    frame.on_axis_value120(WL_POINTER_AXIS_VERTICAL_SCROLL, 60);
    frame.on_axis_value120(WL_POINTER_AXIS_HORIZONTAL_SCROLL, -30);
    assert_eq!(frame.on_frame(), Some(ScrollDelta::Value120 { x: -30, y: 120 }));
    assert_eq!(frame.on_frame(), None);
}
