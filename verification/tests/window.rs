use shin::input::{Button, ButtonState, CursorShape, RawKey, Scancode};
use shin::window::input::{PointerButton, PointerButtons};
use shin::window::wayland::{
    map_cursor_shape_to_enum, map_cursor_shape_to_name, map_keyboard_key, pointer_button_event,
    try_map_pointer_button,
    SerialTracker, SerialType,
};
use shin::window::{ClipboardTextProvider, WindowAttrs, MIME_TYPE_TEXT};
use shin::window::libxkbcommon::{
    xkb_context_flags, xkb_keymap_compile_flags, xkb_keymap_format, xkb_state_component,
};

#[test]
fn test_pointer_buttons_set() {
    let mut pointer_buttons = PointerButtons::default();

    pointer_buttons.set(PointerButton::Primary, true);
    assert!(pointer_buttons.contains(PointerButton::Primary));

    pointer_buttons.set(PointerButton::Secondary, true);
    assert!(pointer_buttons.contains(PointerButton::Primary));
    assert!(pointer_buttons.contains(PointerButton::Secondary));

    pointer_buttons.set(PointerButton::Primary, false);
    assert!(!pointer_buttons.contains(PointerButton::Primary));
}

#[test]
fn pointer_buttons_keep_other_buttons() {
    let mut buttons = PointerButtons::default();
    assert!(!buttons.contains(PointerButton::Tertiary));
    buttons.set(PointerButton::Tertiary, true);
    buttons.set(PointerButton::Secondary, true);
    buttons.set(PointerButton::Secondary, false);
    assert!(buttons.contains(PointerButton::Tertiary));
    assert!(!buttons.contains(PointerButton::Secondary));
    assert!(!buttons.contains(PointerButton::Primary));
    assert_eq!(PointerButton::Secondary.bit(), 1 << 2);
    assert_eq!(PointerButton::Tertiary.bit(), 1 << 3);
}

#[test]
fn linux_button_codes_map_to_buttons() {
    assert_eq!(try_map_pointer_button(0x110), Some(Button::Primary));
    assert_eq!(try_map_pointer_button(0x111), Some(Button::Secondary));
    assert_eq!(try_map_pointer_button(0x112), Some(Button::Tertiary));
    assert_eq!(try_map_pointer_button(0x113), None);
}

#[test]
fn cursor_shapes_map_to_protocol_codes_and_names() {
    assert_eq!(map_cursor_shape_to_enum(CursorShape::Default), 1);
    assert_eq!(map_cursor_shape_to_enum(CursorShape::Pointer), 4);
    assert_eq!(map_cursor_shape_to_enum(CursorShape::Text), 9);
    assert_eq!(map_cursor_shape_to_enum(CursorShape::SwResize), 24);
    assert_eq!(map_cursor_shape_to_name(CursorShape::Default), "default");
    assert_eq!(map_cursor_shape_to_name(CursorShape::NwResize), "nw-resize");
    assert_eq!(map_cursor_shape_to_name(CursorShape::Crosshair), "crosshair");
}

#[test]
fn evdev_key_codes_map_to_scancodes() {
    assert_eq!(map_keyboard_key(0), Scancode::Reserved);
    assert_eq!(map_keyboard_key(1), Scancode::Esc);
    assert_eq!(map_keyboard_key(11), Scancode::Num0);
    assert_eq!(map_keyboard_key(30), Scancode::A);
    assert_eq!(map_keyboard_key(57), Scancode::Space);
    assert_eq!(map_keyboard_key(105), Scancode::ArrowLeft);
    assert_eq!(map_keyboard_key(111), Scancode::Delete);
    assert_eq!(map_keyboard_key(55), Scancode::Unidentified(RawKey::Unix(55)));
    assert_eq!(map_keyboard_key(500), Scancode::Unidentified(RawKey::Unix(500)));
}

#[test]
fn serial_tracker_remembers_per_kind() {
    let mut tracker = SerialTracker::default();
    assert_eq!(tracker.get_serial(SerialType::PointerEnter), None);
    tracker.update_serial(SerialType::PointerEnter, 7);
    tracker.update_serial(SerialType::KeyboardEnter, 9);
    assert_eq!(tracker.get_serial(SerialType::PointerEnter), Some(7));
    tracker.reset_serial(SerialType::PointerEnter);
    assert_eq!(tracker.get_serial(SerialType::PointerEnter), None);
    assert_eq!(tracker.get_serial(SerialType::KeyboardEnter), Some(9));
}

#[test]
fn selection_serial_prefers_pointer() {
    let mut tracker = SerialTracker::default();
    assert_eq!(tracker.selection_serial(), None);
    tracker.update_serial(SerialType::KeyboardEnter, 9);
    assert_eq!(tracker.selection_serial(), Some(9));
    tracker.update_serial(SerialType::PointerEnter, 7);
    assert_eq!(tracker.selection_serial(), Some(7));
}

#[test]
fn window_attrs_default_size() {
    let attrs = WindowAttrs::default();
    assert_eq!(attrs.resolved_logical_size(), (640, 480));
    let attrs = WindowAttrs { logical_size: Some((10, 20)), resizable: true };
    assert_eq!(attrs.resolved_logical_size(), (10, 20));
}

#[test]
fn clipboard_text_provider_offers_utf8_text() {
    let provider = ClipboardTextProvider::new("hi".to_string());
    assert_eq!(provider.text(), "hi");
    assert!(provider.supports_mime_type(MIME_TYPE_TEXT));
    assert!(!provider.supports_mime_type("image/png"));
}

#[test]
fn xkb_flag_codes() {
    assert_eq!(xkb_context_flags::XKB_CONTEXT_NO_FLAGS.code(), 0);
    assert_eq!(xkb_context_flags::XKB_CONTEXT_NO_ENVIRONMENT_NAMES.code(), 2);
    assert_eq!(xkb_keymap_format::XKB_KEYMAP_FORMAT_TEXT_V1.code(), 1);
    assert_eq!(xkb_keymap_compile_flags::XKB_KEYMAP_COMPILE_NO_FLAGS.code(), 0);
    assert_eq!(xkb_state_component::XKB_STATE_MODS_EFFECTIVE.code(), 8);
    assert_eq!(xkb_state_component::XKB_STATE_LEDS.code(), 256);
}

#[test]
fn wayland_pointer_button_events() {
    assert_eq!(pointer_button_event(0x110, 1), Some((ButtonState::Pressed, Button::Primary)));
    assert_eq!(pointer_button_event(0x111, 0), Some((ButtonState::Released, Button::Secondary)));
    assert_eq!(pointer_button_event(0x112, 2), None);
    assert_eq!(pointer_button_event(0x113, 1), None);
}
