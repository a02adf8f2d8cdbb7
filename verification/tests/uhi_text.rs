use shin::input::{KeyState, KeyboardEvent, Keycode, Modifiers, Scancode};
use shin::uhi::clipboardservice::ClipboardService;
use shin::uhi::interactionstate::Key;
use shin::input::CursorShape;
use shin::uhi::interactionstate::InteractionState;
use shin::uhi::text::{
    should_consume_post_line_break_char, editable_end_frame, editable_on_event, editable_on_key,
    editable_take_paste, on_pointer, resolve_hot_active, selectable_on_event, selectable_on_key,
    EditAction, SelectAction, TextEvent, TextSelection,
};

fn sel(start: usize, end: usize) -> TextSelection {
    TextSelection { start, end }
}

fn press(scancode: Scancode, keycode: Keycode) -> KeyboardEvent {
    KeyboardEvent::Key { state: KeyState::Pressed, scancode, keycode, repeat: false }
}

fn mods(shift: bool, ctrl: bool) -> Modifiers {
    Modifiers { shift, ctrl, alt: false, logo: false }
}

#[test]
fn move_left_and_right_step_over_characters() {
    let text = "aé€b";
    let mut s = sel(7, 7);
    s.move_left(text, false);
    assert_eq!(s, sel(6, 6));
    s.move_left(text, false);
    assert_eq!(s, sel(3, 3));
    s.move_left(text, false);
    assert_eq!(s, sel(1, 1));
    s.move_left(text, false);
    assert_eq!(s, sel(0, 0));
    s.move_left(text, false);
    assert_eq!(s, sel(0, 0));
    s.move_right(text, true);
    assert_eq!(s, sel(0, 1));
    s.move_right(text, true);
    assert_eq!(s, sel(0, 3));
    s.move_right(text, false);
    assert_eq!(s, sel(3, 3));
    let mut t = sel(7, 7);
    t.move_right(text, false);
    assert_eq!(t, sel(7, 7));
}

#[test]
fn moves_collapse_a_selection() {
    let text = "hello";
    let mut s = sel(4, 1);
    s.move_left(text, false);
    assert_eq!(s, sel(1, 1));
    let mut s = sel(1, 4);
    s.move_right(text, false);
    assert_eq!(s, sel(4, 4));
}

#[test]
fn home_and_end_stay_on_the_line() {
    let text = "ab\ncd\nef";
    let mut s = sel(4, 4);
    s.move_home(text, false);
    assert_eq!(s, sel(3, 3));
    s.move_end(text, true);
    assert_eq!(s, sel(3, 5));
    let mut s = sel(0, 0);
    s.move_end(text, false);
    assert_eq!(s, sel(2, 2));
    let mut s = sel(7, 7);
    s.move_end(text, false);
    assert_eq!(s, sel(8, 8));
    s.move_home(text, false);
    assert_eq!(s, sel(6, 6));
}

#[test]
fn deleting_and_inserting() {
    let mut text = "héllo".to_string();
    let mut s = sel(3, 3);
    s.delete_left(&mut text);
    assert_eq!(text, "hllo");
    assert_eq!(s, sel(1, 1));
    s.insert_char(&mut text, 'ö');
    assert_eq!(text, "höllo");
    assert_eq!(s, sel(3, 3));
    s.delete_right(&mut text);
    assert_eq!(text, "hölo");
    assert_eq!(s, sel(3, 3));
    let mut s = sel(5, 1);
    s.delete_selection(&mut text);
    assert_eq!(text, "h");
    assert_eq!(s, sel(1, 1));
    s.delete_right(&mut text);
    assert_eq!(text, "h");
    let mut s = sel(0, 0);
    s.delete_left(&mut text);
    assert_eq!(text, "h");
    assert_eq!(s, sel(0, 0));
}

#[test]
fn paste_and_copy() {
    let mut text = "hello world".to_string();
    let s = sel(6, 11);
    assert_eq!(s.copy(&text), Some("world"));
    assert_eq!(sel(3, 3).copy(&text), None);
    assert_eq!(sel(5, 0).copy(&text), Some("hello"));
    let mut s = sel(11, 6);
    s.paste(&mut text, "there");
    assert_eq!(text, "hello there");
    assert_eq!(s, sel(11, 11));
    let mut s = sel(0, 0);
    s.paste(&mut text, "¡");
    assert_eq!(text, "¡hello there");
    assert_eq!(s, sel(2, 2));
    assert_eq!(sel(2, 6).normalized(), sel(2, 6));
    assert_eq!(sel(6, 2).normalized(), sel(2, 6));
}

#[test]
fn editable_text_reacts_to_keys() {
    let key = Key::new("field");
    let mut clipboard = ClipboardService::default();
    clipboard.begin_frame(1);
    let mut text = String::new();
    let mut s = TextSelection::default();

    for ch in ['h', 'i'] {
        let a = editable_on_key(&mut s, &mut text, key, &mut clipboard, mods(false, false), press(Scancode::Unidentified(shin::input::RawKey::Unidentified), Keycode::Char(ch)));
        assert_eq!(a, EditAction::Insert(ch));
    }
    assert_eq!(text, "hi");
    let a = editable_on_key(&mut s, &mut text, key, &mut clipboard, mods(false, false), press(Scancode::Enter, Keycode::Char('\r')));
    assert_eq!(a, EditAction::Ignore);
    let a = editable_on_key(&mut s, &mut text, key, &mut clipboard, mods(true, false), press(Scancode::ArrowLeft, Keycode::Unidentified(shin::input::RawKey::Unidentified)));
    assert_eq!(a, EditAction::MoveLeft);
    assert_eq!(s, sel(2, 1));
    let a = editable_on_key(&mut s, &mut text, key, &mut clipboard, mods(false, true), press(Scancode::X, Keycode::Char('x')));
    assert_eq!(a, EditAction::Cut);
    assert_eq!(text, "h");
    assert_eq!(clipboard.take_write(), Some("i".to_string()));
    let a = editable_on_key(&mut s, &mut text, key, &mut clipboard, mods(false, false), press(Scancode::V, Keycode::Char('v')));
    assert_eq!(a, EditAction::Insert('v'));
    assert_eq!(text, "hv");
    let a = editable_on_key(&mut s, &mut text, key, &mut clipboard, mods(false, false), press(Scancode::Backspace, Keycode::Unidentified(shin::input::RawKey::Unidentified)));
    assert_eq!(a, EditAction::DeleteLeft);
    assert_eq!(text, "h");
    let released = KeyboardEvent::Key { state: KeyState::Released, scancode: Scancode::Backspace, keycode: Keycode::Unidentified(shin::input::RawKey::Unidentified), repeat: false };
    assert_eq!(editable_on_key(&mut s, &mut text, key, &mut clipboard, mods(false, false), released), EditAction::Ignore);
    assert_eq!(text, "h");

    let a = editable_on_key(&mut s, &mut text, key, &mut clipboard, mods(false, true), press(Scancode::V, Keycode::Char('v')));
    assert_eq!(a, EditAction::RequestPaste);
    assert!(clipboard.is_awaiting_read());
    clipboard.fulfill_read(Ok("ey".to_string()));
    clipboard.end_frame();
    clipboard.begin_frame(2);
    assert!(editable_take_paste(&mut s, &mut text, key, &mut clipboard));
    assert_eq!(text, "hey");
    assert_eq!(s, sel(3, 3));
    assert!(!editable_take_paste(&mut s, &mut text, key, &mut clipboard));
}

#[test]
fn selectable_text_reacts_to_keys_and_pointer() {
    let text = "select me";
    let mut clipboard = ClipboardService::default();
    clipboard.begin_frame(1);
    let mut s = TextSelection::default();
    on_pointer(&mut s, 7, true);
    assert_eq!(s, sel(7, 7));
    on_pointer(&mut s, 2, false);
    assert_eq!(s, sel(7, 2));
    let a = selectable_on_key(&mut s, text, &mut clipboard, mods(true, false), press(Scancode::Home, Keycode::Unidentified(shin::input::RawKey::Unidentified)));
    assert_eq!(a, SelectAction::ExtendHome);
    assert_eq!(s, sel(7, 0));
    let a = selectable_on_key(&mut s, text, &mut clipboard, mods(false, false), press(Scancode::ArrowLeft, Keycode::Unidentified(shin::input::RawKey::Unidentified)));
    assert_eq!(a, SelectAction::Ignore);
    let a = selectable_on_key(&mut s, text, &mut clipboard, mods(false, true), press(Scancode::C, Keycode::Char('c')));
    assert_eq!(a, SelectAction::Copy);
    assert_eq!(clipboard.take_write(), Some("select ".to_string()));
}

#[test]
fn typing_then_backspace_restores_the_text() {
    for ch in ['a', 'é', '€', '🦀'] {
        let mut text = "xyz".to_string();
        let mut s = sel(1, 1);
        s.insert_char(&mut text, ch);
        assert_eq!(s, sel(1 + ch.len_utf8(), 1 + ch.len_utf8()));
        s.delete_left(&mut text);
        assert_eq!(text, "xyz");
        assert_eq!(s, sel(1, 1));
    }
}

#[test]
fn cut_then_paste_restores_the_text() {
    let mut text = "a€bc".to_string();
    let mut s = sel(5, 1);
    let cut = s.copy(&text).unwrap().to_string();
    assert_eq!(cut, "€b");
    s.delete_selection(&mut text);
    assert_eq!(text, "ac");
    s.paste(&mut text, &cut);
    assert_eq!(text, "a€bc");
    assert_eq!(s, sel(5, 5));
}

#[test]
fn line_break_consumes_white_space() {
    assert!(should_consume_post_line_break_char('\n'));
    assert!(should_consume_post_line_break_char(' '));
    assert!(should_consume_post_line_break_char('\u{3000}'));
    assert!(!should_consume_post_line_break_char('a'));
    assert!(!should_consume_post_line_break_char('\u{200b}'));
}

#[test]
fn inactive_editable_text_ignores_its_input() {
    let key = Key::new("field");
    let mut clipboard = ClipboardService::default();
    clipboard.begin_frame(1);
    let mut text = String::from("hello");
    let mut s = sel(2, 2);
    let type_a = TextEvent::Keyboard(press(Scancode::A, Keycode::Char('a')));
    let paste = TextEvent::Keyboard(press(Scancode::V, Keycode::Char('v')));
    assert_eq!(editable_on_event(false, &mut s, &mut text, key, &mut clipboard, mods(false, false), type_a), None);
    assert_eq!(editable_on_event(false, &mut s, &mut text, key, &mut clipboard, mods(false, true), paste), None);
    assert_eq!(editable_on_event(false, &mut s, &mut text, key, &mut clipboard, mods(false, false), TextEvent::Pointer { offset: 4, pressed: true }), None);
    assert!(!clipboard.is_awaiting_read());
    assert_eq!((text.as_str(), s), ("hello", sel(2, 2)));

    // active, the same events type, ask for a paste and move the cursor
    let a = editable_on_event(true, &mut s, &mut text, key, &mut clipboard, mods(false, false), type_a);
    assert_eq!(a, Some(EditAction::Insert('a')));
    assert_eq!((text.as_str(), s), ("heallo", sel(3, 3)));
    assert_eq!(editable_on_event(true, &mut s, &mut text, key, &mut clipboard, mods(false, true), paste), Some(EditAction::RequestPaste));
    assert!(clipboard.is_awaiting_read());
    clipboard.fulfill_read(Ok("XY".to_string()));

    // the answer waits while the widget is inactive, and is taken once it is active again
    assert!(!editable_end_frame(false, &mut s, &mut text, key, &mut clipboard));
    assert_eq!(text, "heallo");
    assert!(editable_end_frame(true, &mut s, &mut text, key, &mut clipboard));
    assert_eq!((text.as_str(), s), ("heaXYllo", sel(5, 5)));
    assert_eq!(editable_on_event(true, &mut s, &mut text, key, &mut clipboard, mods(false, false), TextEvent::Pointer { offset: 1, pressed: true }), None);
    assert_eq!(s, sel(1, 1));
    editable_on_event(true, &mut s, &mut text, key, &mut clipboard, mods(false, false), TextEvent::Pointer { offset: 4, pressed: false });
    assert_eq!(s, sel(1, 4));
}

#[test]
fn inactive_selectable_text_ignores_its_input() {
    let text = "select me";
    let mut clipboard = ClipboardService::default();
    clipboard.begin_frame(1);
    let mut s = sel(0, 6);
    let copy = TextEvent::Keyboard(press(Scancode::C, Keycode::Char('c')));
    assert_eq!(selectable_on_event(false, &mut s, text, &mut clipboard, mods(false, true), copy), None);
    assert_eq!(clipboard.take_write(), None);
    assert_eq!(selectable_on_event(true, &mut s, text, &mut clipboard, mods(false, true), copy), Some(SelectAction::Copy));
    assert_eq!(clipboard.take_write(), Some("select".to_string()));
}

#[test]
fn text_widgets_resolve_hot_and_active() {
    let key = Key::new("text");
    let mut interaction = InteractionState::default();
    // flags given to the widget are taken as they are, and the interaction state is not asked
    assert_eq!(resolve_hot_active(&mut interaction, key, Some(true), Some(false), true, true), (true, false));
    assert!(!interaction.is_hot(key));
    // otherwise the widget reports the pointer; it is hot first, and active on the next press
    interaction.begin_frame();
    assert_eq!(resolve_hot_active(&mut interaction, key, None, None, true, false), (true, false));
    assert_eq!(interaction.take_cursor_shape(), Some(CursorShape::Text));
    interaction.end_frame();
    interaction.begin_frame();
    assert_eq!(resolve_hot_active(&mut interaction, key, None, None, true, true), (true, true));
    interaction.take_cursor_shape();
    interaction.end_frame();
}
