use shin::input::CursorShape;
use shin::uhi::clipboardservice::ClipboardService;
use shin::uhi::interactionstate::{InteractionState, Key};

#[test]
fn widget_becomes_active_after_being_hot() {
    let key = Key::new("button");
    let mut state = InteractionState::default();

    state.begin_frame();
    assert!(!state.maybe_set_hot_or_active(key, true, true, CursorShape::Pointer));
    assert!(state.is_hot(key));
    assert!(!state.is_active(key));
    assert_eq!(state.take_cursor_shape(), Some(CursorShape::Pointer));
    state.end_frame();
    assert!(!state.is_hot(key));

    state.begin_frame();
    assert!(state.maybe_set_hot_or_active(key, true, true, CursorShape::Pointer));
    assert!(state.is_active(key));
    assert_eq!(state.take_cursor_shape(), Some(CursorShape::Pointer));
    state.end_frame();

    state.begin_frame();
    assert!(!state.maybe_set_hot_or_active(key, false, true, CursorShape::Pointer));
    assert!(!state.is_active(key));
    assert_eq!(state.take_cursor_shape(), Some(CursorShape::Default));
    state.end_frame();
}

#[test]
fn other_widget_does_not_activate() {
    let a = Key::new(1u32);
    let b = Key::new(2u32);
    let mut state = InteractionState::default();
    state.begin_frame();
    state.maybe_set_hot_or_active(a, true, false, CursorShape::Text);
    state.take_cursor_shape();
    state.end_frame();
    state.begin_frame();
    assert!(!state.maybe_set_hot_or_active(b, true, true, CursorShape::Text));
    assert!(!state.is_active(b));
    assert!(state.is_hot(b));
}

#[test]
fn clipboard_read_is_taken_next_frame() {
    let key = Key::new("input");
    let other = Key::new("other");
    let mut clipboard = ClipboardService::default();

    clipboard.begin_frame(1);
    clipboard.request_read(key);
    assert!(clipboard.is_awaiting_read());
    clipboard.fulfill_read(Ok("pasta".to_string()));
    assert!(!clipboard.is_awaiting_read());
    clipboard.end_frame();

    clipboard.begin_frame(2);
    assert_eq!(clipboard.try_take_read(other), None);
    assert_eq!(clipboard.try_take_read(key), Some("pasta".to_string()));
    assert_eq!(clipboard.try_take_read(key), None);
    clipboard.end_frame();
}

#[test]
fn clipboard_failed_read_is_consumed() {
    let key = Key::new("input");
    let mut clipboard = ClipboardService::default();
    clipboard.begin_frame(1);
    clipboard.request_read(key);
    clipboard.fulfill_read(Err(anyhow::Error::msg("no clipboard")));
    clipboard.end_frame();
    clipboard.begin_frame(2);
    assert_eq!(clipboard.try_take_read(key), None);
    clipboard.end_frame();
}

#[test]
fn clipboard_stale_requests_are_evicted() {
    let key = Key::new("input");
    let mut clipboard = ClipboardService::default();
    clipboard.begin_frame(1);
    clipboard.request_read(key);
    clipboard.request_write("copy".to_string());
    clipboard.end_frame();

    clipboard.begin_frame(2);
    assert!(clipboard.is_awaiting_read());
    clipboard.end_frame();

    clipboard.begin_frame(3);
    assert!(!clipboard.is_awaiting_read());
    assert_eq!(clipboard.take_write(), None);
    clipboard.end_frame();
}

#[test]
fn clipboard_write_is_taken_in_its_frame() {
    let mut clipboard = ClipboardService::default();
    clipboard.begin_frame(1);
    clipboard.request_write("copy".to_string());
    assert_eq!(clipboard.take_write(), Some("copy".to_string()));
    assert_eq!(clipboard.take_write(), None);
    clipboard.end_frame();
}
