//! Text widgets: interaction and line-mode markers, and the editing of a text through its
//! selection.
use crate::input::{KeyState, KeyboardEvent, Keycode, Modifiers, Scancode};
use crate::uhi::clipboardservice::{
    request_read_step, request_write_step, takes_read, ClipboardModel,
    ClipboardService,
};
use crate::input::CursorShape;
use crate::uhi::interactionstate::{hover_step, InteractionState, Key};
use crate::xml_iterator::is_white_space;
use crate::utf8::{
    newline,
    is_line_end, is_line_start, is_next_boundary, is_prev_boundary, lemma_after_newline,
    lemma_on_boundary, lemma_text_bytes, line_end, line_start, next_boundary, on_boundary,
    prev_boundary, string_insert, string_replace_range, substring, utf8, char_len_utf8,
};
use vstd::prelude::*;
use vstd::string::*;
use vstd::utf8::*;

verus! {

/// Text that cannot be selected or edited.
pub struct TextInteractNone;

/// Text that can be selected and copied.
pub struct TextInteractSelect;

/// Text that can be edited.
pub struct TextInteractEdit;

/// Interaction modes that take part in hot/active tracking.
pub trait TextInteract {}

impl TextInteract for TextInteractSelect {}

impl TextInteract for TextInteractEdit {}

/// Line mode not chosen yet.
pub struct TextLineNone;

/// Text laid out on one line.
pub struct TextLineSingle;

/// Text wrapped over several lines.
pub struct TextLineMulti;

} // verus!

verus! {

/// A selection in a text, as byte offsets into its UTF-8 encoding.
///
/// `start` is where the selection was anchored (the initial click), `end` is where the cursor
/// is; `start` may lie after `end`. The selection is empty when they are equal, and then
/// `end` is just the cursor.
#[derive(Debug, Default, Clone, Copy, PartialEq, Eq, Structural)]
pub struct TextSelection {
    pub start: usize,
    pub end: usize,
}

/// Both ends of `sel` are character boundaries of `bytes`.
pub open spec fn selection_valid(sel: TextSelection, bytes: Seq<u8>) -> bool {
    on_boundary(bytes, sel.start as int) && on_boundary(bytes, sel.end as int)
}

/// The smaller end of a selection.
pub open spec fn sel_lo(sel: TextSelection) -> usize {
    if sel.start <= sel.end {
        sel.start
    } else {
        sel.end
    }
}

/// The larger end of a selection.
pub open spec fn sel_hi(sel: TextSelection) -> usize {
    if sel.start <= sel.end {
        sel.end
    } else {
        sel.start
    }
}

/// An empty selection (a cursor) at `at`.
pub open spec fn cursor_at(at: usize) -> TextSelection {
    TextSelection { start: at, end: at }
}

/// `bytes` with `lo..hi` replaced by `with`.
pub open spec fn splice(bytes: Seq<u8>, lo: int, hi: int, with: Seq<u8>) -> Seq<u8> {
    bytes.subrange(0, lo) + with + bytes.subrange(hi, bytes.len() as int)
}

/// `new` is `old` after moving the cursor one character left in `bytes`: without `extend` a
/// non-empty selection collapses to its left end; otherwise the cursor goes to the previous
/// character boundary and, without `extend`, the anchor follows it.
pub open spec fn moved_left(old: TextSelection, bytes: Seq<u8>, extend: bool, new: TextSelection) -> bool {
    if old.start != old.end && !extend {
        new == cursor_at(sel_lo(old))
    } else {
        &&& is_prev_boundary(bytes, old.end as int, new.end as int)
        &&& new.start == if extend { old.start } else { new.end }
    }
}

/// `new` is `old` after moving the cursor one character right in `bytes` (see [`moved_left`]).
pub open spec fn moved_right(old: TextSelection, bytes: Seq<u8>, extend: bool, new: TextSelection) -> bool {
    if old.start != old.end && !extend {
        new == cursor_at(sel_hi(old))
    } else {
        &&& is_next_boundary(bytes, old.end as int, new.end as int)
        &&& new.start == if extend { old.start } else { new.end }
    }
}

/// `new` is `old` after moving the cursor to the start of its line.
pub open spec fn moved_home(old: TextSelection, bytes: Seq<u8>, extend: bool, new: TextSelection) -> bool {
    &&& is_line_start(bytes, old.end as int, new.end as int)
    &&& new.start == if extend { old.start } else { new.end }
}

/// `new` is `old` after moving the cursor to the end of its line.
pub open spec fn moved_end(old: TextSelection, bytes: Seq<u8>, extend: bool, new: TextSelection) -> bool {
    &&& is_line_end(bytes, old.end as int, new.end as int)
    &&& new.start == if extend { old.start } else { new.end }
}

/// The text `new_bytes` and selection `new` are `old_bytes` and `old` after deleting the
/// selected text; an empty selection deletes nothing.
pub open spec fn deleted_selection(
    old: TextSelection,
    old_bytes: Seq<u8>,
    new: TextSelection,
    new_bytes: Seq<u8>,
) -> bool {
    if old.start == old.end {
        new == old && new_bytes == old_bytes
    } else {
        &&& new_bytes == splice(old_bytes, sel_lo(old) as int, sel_hi(old) as int, Seq::empty())
        &&& new == cursor_at(sel_lo(old))
    }
}

/// After deleting to the left: the selection, or else the character before the cursor.
pub open spec fn deleted_left(
    old: TextSelection,
    old_bytes: Seq<u8>,
    new: TextSelection,
    new_bytes: Seq<u8>,
) -> bool {
    if old.start != old.end {
        deleted_selection(old, old_bytes, new, new_bytes)
    } else {
        &&& is_prev_boundary(old_bytes, old.start as int, new.start as int)
        &&& new.start == new.end
        &&& new_bytes == splice(old_bytes, new.start as int, old.start as int, Seq::empty())
    }
}

/// After deleting to the right: the selection, or else the character after the cursor.
pub open spec fn deleted_right(
    old: TextSelection,
    old_bytes: Seq<u8>,
    new: TextSelection,
    new_bytes: Seq<u8>,
) -> bool {
    if old.start != old.end {
        deleted_selection(old, old_bytes, new, new_bytes)
    } else {
        exists|next: int|
            {
                &&& is_next_boundary(old_bytes, old.start as int, next)
                &&& new_bytes == splice(old_bytes, old.start as int, next, Seq::empty())
                &&& new == old
            }
    }
}

/// After replacing the selection by `with`, with the cursor after it.
pub open spec fn replaced_selection(
    old: TextSelection,
    old_bytes: Seq<u8>,
    with: Seq<u8>,
    new: TextSelection,
    new_bytes: Seq<u8>,
) -> bool {
    &&& new_bytes == splice(old_bytes, sel_lo(old) as int, sel_hi(old) as int, with)
    &&& new == cursor_at((sel_lo(old) + with.len()) as usize)
}

/// Replacing a range between character boundaries by valid UTF-8 keeps the positions before
/// the range, the end of the replacement and the positions after it on character boundaries.
proof fn lemma_splice_boundaries(bytes: Seq<u8>, lo: int, hi: int, with: Seq<u8>)
    requires
        valid_utf8(bytes),
        valid_utf8(with),
        0 <= lo <= hi <= bytes.len(),
        on_boundary(bytes, lo),
        on_boundary(bytes, hi),
    ensures
        ({
            let r = splice(bytes, lo, hi, with);
            &&& on_boundary(r, lo)
            &&& on_boundary(r, lo + with.len())
            &&& forall|i: int| 0 <= i <= lo ==> on_boundary(r, i) == on_boundary(bytes, i)
        }),
{
    let r = splice(bytes, lo, hi, with);
    if with.len() > 0 {
        lemma_on_boundary(with, 0);
        assert(is_char_boundary(with, 0));
    }
    assert forall|i: int| 0 <= i <= lo implies on_boundary(r, i) == on_boundary(bytes, i) by {
        if i < lo {
            assert(r[i] == bytes[i]);
        } else if with.len() == 0 && hi < bytes.len() {
            assert(r[i] == bytes[hi]);
        }
    }
    if hi < bytes.len() {
        assert(r[lo + with.len()] == bytes[hi]);
    }
}

impl TextSelection {
    pub fn from_range(byte_range: std::ops::Range<usize>) -> (r: Self)
        ensures
            r == (TextSelection { start: byte_range.start, end: byte_range.end }),
    {
        Self { start: byte_range.start, end: byte_range.end }
    }

    pub fn as_range(&self) -> (r: std::ops::Range<usize>)
        ensures
            r.start == self.start,
            r.end == self.end,
    {
        self.start..self.end
    }

    pub fn is_empty(&self) -> (r: bool)
        ensures
            r == (self.start == self.end),
    {
        self.start == self.end
    }

    pub fn clear(&mut self)
        ensures
            *final(self) == cursor_at(0),
    {
        self.start = 0;
        self.end = 0;
    }

    /// The same range with `start <= end`.
    pub fn normalized(&self) -> (r: Self)
        ensures
            r == (TextSelection { start: sel_lo(*self), end: sel_hi(*self) }),
    {
        if self.start <= self.end {
            Self { start: self.start, end: self.end }
        } else {
            Self { start: self.end, end: self.start }
        }
    }

    /// Moves the cursor one character left; without `extend_selection` a non-empty selection
    /// collapses to its left end instead, and an empty one moves along with the cursor.
    pub fn move_left(&mut self, text: &str, extend_selection: bool)
        requires
            selection_valid(*old(self), text.spec_bytes()),
        ensures
            selection_valid(*final(self), text.spec_bytes()),
            moved_left(*old(self), text.spec_bytes(), extend_selection, *final(self)),
    {
        if self.start != self.end && !extend_selection {
            let lo = if self.end <= self.start { self.end } else { self.start };
            self.end = lo;
            self.start = lo;
            return;
        }
        proof {
            lemma_text_bytes(text@);
        }
        let bytes = text.as_bytes();
        self.end = prev_boundary(bytes, self.end);
        if !extend_selection {
            self.start = self.end;
        }
    }

    /// Moves the cursor one character right; without `extend_selection` a non-empty selection
    /// collapses to its right end instead, and an empty one moves along with the cursor.
    pub fn move_right(&mut self, text: &str, extend_selection: bool)
        requires
            selection_valid(*old(self), text.spec_bytes()),
        ensures
            selection_valid(*final(self), text.spec_bytes()),
            moved_right(*old(self), text.spec_bytes(), extend_selection, *final(self)),
    {
        if self.start != self.end && !extend_selection {
            let hi = if self.end >= self.start { self.end } else { self.start };
            self.end = hi;
            self.start = hi;
            return;
        }
        let bytes = text.as_bytes();
        self.end = next_boundary(bytes, self.end);
        if !extend_selection {
            self.start = self.end;
        }
    }

    /// Moves the cursor to the start of its line.
    pub fn move_home(&mut self, text: &str, extend_selection: bool)
        requires
            selection_valid(*old(self), text.spec_bytes()),
        ensures
            selection_valid(*final(self), text.spec_bytes()),
            moved_home(*old(self), text.spec_bytes(), extend_selection, *final(self)),
    {
        proof {
            lemma_text_bytes(text@);
        }
        let bytes = text.as_bytes();
        let r = line_start(bytes, self.end);
        proof {
            if r > 0 {
                lemma_after_newline(text.spec_bytes(), r - 1);
            }
        }
        self.end = r;
        if !extend_selection {
            self.start = self.end;
        }
    }

    /// Moves the cursor to the end of its line (before the line break).
    pub fn move_end(&mut self, text: &str, extend_selection: bool)
        requires
            selection_valid(*old(self), text.spec_bytes()),
        ensures
            selection_valid(*final(self), text.spec_bytes()),
            moved_end(*old(self), text.spec_bytes(), extend_selection, *final(self)),
    {
        proof {
            lemma_text_bytes(text@);
        }
        let bytes = text.as_bytes();
        let r = line_end(bytes, self.end);
        proof {
            if r < text.spec_bytes().len() {
                lemma_after_newline(text.spec_bytes(), r as int);
            }
        }
        self.end = r;
        if !extend_selection {
            self.start = self.end;
        }
    }

    /// Deletes the selected text and leaves the cursor where it was.
    pub fn delete_selection(&mut self, text: &mut String)
        requires
            selection_valid(*old(self), utf8(old(text)@)),
        ensures
            selection_valid(*final(self), utf8(final(text)@)),
            deleted_selection(*old(self), utf8(old(text)@), *final(self), utf8(final(text)@)),
    {
        if self.start == self.end {
            return;
        }
        let n = self.normalized();
        proof {
            lemma_text_bytes(text@);
            lemma_text_bytes(""@);
            reveal_strlit("");
            lemma_splice_boundaries(utf8(text@), n.start as int, n.end as int, Seq::empty());
        }
        string_replace_range(text, n.start, n.end, "");
        proof {
            assert(""@ =~= Seq::<char>::empty());
            assert(encode_utf8(Seq::<char>::empty()) =~= Seq::<u8>::empty());
        }
        self.end = n.start;
        self.start = self.end;
    }
}


impl TextSelection {
    /// Deletes the selection, or, when it is empty, the character before the cursor.
    pub fn delete_left(&mut self, text: &mut String)
        requires
            selection_valid(*old(self), utf8(old(text)@)),
        ensures
            selection_valid(*final(self), utf8(final(text)@)),
            deleted_left(*old(self), utf8(old(text)@), *final(self), utf8(final(text)@)),
    {
        if self.start == self.end {
            self.end = self.start;
            self.move_left(text.as_str(), true);
        }
        let ghost before = utf8(text@);
        self.delete_selection(text);
        proof {
            if old(self).start == old(self).end {
                assert(splice(before, old(self).start as int, old(self).start as int, Seq::empty())
                    =~= before);
            }
        }
    }

    /// Deletes the selection, or, when it is empty, the character after the cursor.
    pub fn delete_right(&mut self, text: &mut String)
        requires
            selection_valid(*old(self), utf8(old(text)@)),
        ensures
            selection_valid(*final(self), utf8(final(text)@)),
            deleted_right(*old(self), utf8(old(text)@), *final(self), utf8(final(text)@)),
    {
        let ghost next: int = 0;
        if self.start == self.end {
            self.end = self.start;
            self.move_right(text.as_str(), true);
            proof {
                next = self.end as int;
            }
        }
        let ghost before = utf8(text@);
        self.delete_selection(text);
        proof {
            if old(self).start == old(self).end {
                if next == old(self).start {
                    assert(splice(before, next, next, Seq::empty()) =~= before);
                }
            }
        }
    }

    /// Replaces the selection by `ch` and puts the cursor after it.
    pub fn insert_char(&mut self, text: &mut String, ch: char)
        requires
            selection_valid(*old(self), utf8(old(text)@)),
            utf8(old(text)@).len() + 4 <= isize::MAX,
        ensures
            selection_valid(*final(self), utf8(final(text)@)),
            replaced_selection(
                *old(self),
                utf8(old(text)@),
                encode_scalar(ch as u32),
                *final(self),
                utf8(final(text)@),
            ),
    {
        let ghost b = utf8(text@);
        if self.start != self.end {
            self.delete_selection(text);
        }
        let ghost b1 = utf8(text@);
        let at = self.start;
        let n = char_len_utf8(ch);
        proof {
            lemma_text_bytes(text@);
            let one = seq![ch];
            assert(encode_utf8(one) =~= encode_scalar(ch as u32)) by {
                assert(one.drop_first() =~= Seq::<char>::empty());
                assert(one[0] == ch);
                assert(encode_utf8(Seq::<char>::empty()) =~= Seq::<u8>::empty());
                assert(encode_utf8(one) == encode_scalar(one[0] as u32) + encode_utf8(one.drop_first()));
            }
            encode_utf8_valid_utf8(one);
            lemma_splice_boundaries(b1, at as int, at as int, encode_scalar(ch as u32));
        }
        string_insert(text, at, ch);
        proof {
            assert(utf8(text@) =~= splice(b1, at as int, at as int, encode_scalar(ch as u32)));
            assert(splice(b1, at as int, at as int, encode_scalar(ch as u32)) =~= splice(
                b,
                sel_lo(*old(self)) as int,
                sel_hi(*old(self)) as int,
                encode_scalar(ch as u32),
            ));
        }
        self.start = at + n;
        self.end = self.start;
    }

    /// Replaces the selection by `pasta` and puts the cursor after it.
    pub fn paste(&mut self, text: &mut String, pasta: &str)
        requires
            selection_valid(*old(self), utf8(old(text)@)),
            utf8(old(text)@).len() + pasta.spec_bytes().len() <= isize::MAX,
        ensures
            selection_valid(*final(self), utf8(final(text)@)),
            replaced_selection(
                *old(self),
                utf8(old(text)@),
                pasta.spec_bytes(),
                *final(self),
                utf8(final(text)@),
            ),
    {
        let n = self.normalized();
        let len = pasta.len();
        proof {
            lemma_text_bytes(text@);
            lemma_text_bytes(pasta@);
            lemma_splice_boundaries(utf8(text@), n.start as int, n.end as int, pasta.spec_bytes());
        }
        string_replace_range(text, n.start, n.end, pasta);
        self.end = n.start + len;
        self.start = self.end;
    }

    /// The selected text, or `None` when nothing is selected.
    pub fn copy<'a>(&self, text: &'a str) -> (r: Option<&'a str>)
        requires
            selection_valid(*self, text.spec_bytes()),
        ensures
            self.start == self.end ==> r is None,
            self.start != self.end ==> (r matches Some(s) && s.spec_bytes()
                == text.spec_bytes().subrange(sel_lo(*self) as int, sel_hi(*self) as int)),
    {
        if self.is_empty() {
            return None;
        }
        let n = self.normalized();
        Some(substring(text, n.start, n.end))
    }
}

/// The first byte of a character's encoding starts a character; the others continue it.
proof fn lemma_encode_scalar_bytes(c: char)
    ensures
        !is_continuation_byte(encode_scalar(c as u32)[0]),
        forall|k: int|
            0 < k < encode_scalar(c as u32).len() ==> is_continuation_byte(
                #[trigger] encode_scalar(c as u32)[k],
            ),
{
    char_is_scalar(c);
    let v = c as u32;
    assert(0x80 <= last_continuation_byte(v) <= 0xbf) by (bit_vector);
    assert(0x80 <= second_last_continuation_byte(v) <= 0xbf) by (bit_vector);
    assert(0x80 <= third_last_continuation_byte(v) <= 0xbf) by (bit_vector);
    if has_width_1_encoding(v) {
        assert(has_width_1_encoding(v) ==> leading_byte_width_1(v) < 0x80) by (bit_vector);
    } else if has_width_2_encoding(v) {
        assert(0xc0 <= leading_byte_width_2(v)) by (bit_vector);
    } else if has_width_3_encoding(v) {
        assert(0xe0 <= leading_byte_width_3(v)) by (bit_vector);
    } else {
        assert(0xf0 <= leading_byte_width_4(v)) by (bit_vector);
    }
}

/// Moving the cursor one character left and then one character right brings it back, unless
/// it was at the start of the text.
pub proof fn law_move_left_then_right(bytes: Seq<u8>, at: usize, left: TextSelection, back: TextSelection)
    requires
        on_boundary(bytes, at as int),
        at > 0,
        moved_left(cursor_at(at), bytes, false, left),
        moved_right(left, bytes, false, back),
    ensures
        back == cursor_at(at),
{
    if back.end < at {
        assert(on_boundary(bytes, back.end as int));
    } else if back.end > at {
        assert(on_boundary(bytes, at as int));
    }
}

/// Moving the cursor one character right and then one character left brings it back, unless
/// it was at the end of the text.
pub proof fn law_move_right_then_left(bytes: Seq<u8>, at: usize, right: TextSelection, back: TextSelection)
    requires
        on_boundary(bytes, at as int),
        at < bytes.len(),
        moved_right(cursor_at(at), bytes, false, right),
        moved_left(right, bytes, false, back),
    ensures
        back == cursor_at(at),
{
    if back.end < at {
        assert(on_boundary(bytes, at as int));
    } else if back.end > at {
        assert(on_boundary(bytes, back.end as int));
    }
}

/// Typing a character at the cursor and then deleting to the left gives back the text, with
/// the cursor where it was.
pub proof fn law_insert_char_then_delete_left(
    bytes: Seq<u8>,
    at: usize,
    ch: char,
    typed: TextSelection,
    typed_bytes: Seq<u8>,
    deleted: TextSelection,
    deleted_bytes: Seq<u8>,
)
    requires
        valid_utf8(bytes),
        bytes.len() + 4 <= isize::MAX,
        on_boundary(bytes, at as int),
        replaced_selection(cursor_at(at), bytes, encode_scalar(ch as u32), typed, typed_bytes),
        deleted_left(typed, typed_bytes, deleted, deleted_bytes),
    ensures
        deleted_bytes == bytes,
        deleted == cursor_at(at),
{
    let enc = encode_scalar(ch as u32);
    lemma_encode_scalar_bytes(ch);
    let end = at + enc.len();
    assert(typed_bytes[at as int] == enc[0]);
    assert(on_boundary(typed_bytes, at as int));
    assert(typed.start == end);
    let left = deleted.start as int;
    if left > at {
        assert(typed_bytes[left] == enc[left - at]);
        assert(!on_boundary(typed_bytes, left));
    } else if left < at {
        assert(left < at < end);
    }
    assert(left == at);
    assert(splice(typed_bytes, at as int, end, Seq::empty()) =~= bytes);
}

/// Deleting a non-empty selection and pasting the deleted text back restores the text; the
/// cursor ends after the pasted text.
pub proof fn law_cut_then_paste(
    bytes: Seq<u8>,
    sel: TextSelection,
    cut: TextSelection,
    cut_bytes: Seq<u8>,
    pasted: TextSelection,
    pasted_bytes: Seq<u8>,
)
    requires
        selection_valid(sel, bytes),
        sel.start != sel.end,
        deleted_selection(sel, bytes, cut, cut_bytes),
        replaced_selection(
            cut,
            cut_bytes,
            bytes.subrange(sel_lo(sel) as int, sel_hi(sel) as int),
            pasted,
            pasted_bytes,
        ),
    ensures
        pasted_bytes == bytes,
        pasted == cursor_at(sel_hi(sel)),
{
    let lo = sel_lo(sel) as int;
    let hi = sel_hi(sel) as int;
    assert(pasted_bytes =~= bytes);
}


// ---- reactions of the text widgets to input

/// What an editable text does with a key event.
#[derive(Debug, Clone, Copy, PartialEq, Eq, Structural)]
pub enum EditAction {
    MoveLeft,
    MoveRight,
    MoveHome,
    MoveEnd,
    RequestPaste,
    Copy,
    Cut,
    DeleteLeft,
    DeleteRight,
    Insert(char),
    Ignore,
}

/// A character that typing inserts: not a control character.
pub open spec fn is_printable(ch: char) -> bool {
    ch as u32 >= 32 && ch as u32 != 127
}

/// The key bindings of editable text: arrows, Home and End move the cursor (extending the
/// selection with Shift), Ctrl+V pastes, Ctrl+C copies, Ctrl+X cuts, Backspace and Delete
/// delete, and a printable character is typed. Only presses count.
pub open spec fn edit_action(event: KeyboardEvent, modifiers: Modifiers) -> EditAction {
    match event {
        KeyboardEvent::Key { state, scancode, keycode, .. } => {
            if state != KeyState::Pressed {
                EditAction::Ignore
            } else if scancode == Scancode::ArrowLeft {
                EditAction::MoveLeft
            } else if scancode == Scancode::ArrowRight {
                EditAction::MoveRight
            } else if scancode == Scancode::Home {
                EditAction::MoveHome
            } else if scancode == Scancode::End {
                EditAction::MoveEnd
            } else if scancode == Scancode::V && modifiers.ctrl {
                EditAction::RequestPaste
            } else if scancode == Scancode::C && modifiers.ctrl {
                EditAction::Copy
            } else if scancode == Scancode::X && modifiers.ctrl {
                EditAction::Cut
            } else if scancode == Scancode::Backspace {
                EditAction::DeleteLeft
            } else if scancode == Scancode::Delete {
                EditAction::DeleteRight
            } else {
                match keycode {
                    Keycode::Char(ch) => if is_printable(ch) {
                        EditAction::Insert(ch)
                    } else {
                        EditAction::Ignore
                    },
                    Keycode::Unidentified(_) => EditAction::Ignore,
                }
            }
        },
    }
}

/// The action that editable text takes on `event`.
pub fn edit_action_of(event: KeyboardEvent, modifiers: Modifiers) -> (r: EditAction)
    ensures
        r == edit_action(event, modifiers),
{
    match event {
        KeyboardEvent::Key { state, scancode, keycode, .. } => {
            if state != KeyState::Pressed {
                EditAction::Ignore
            } else if scancode == Scancode::ArrowLeft {
                EditAction::MoveLeft
            } else if scancode == Scancode::ArrowRight {
                EditAction::MoveRight
            } else if scancode == Scancode::Home {
                EditAction::MoveHome
            } else if scancode == Scancode::End {
                EditAction::MoveEnd
            } else if scancode == Scancode::V && modifiers.ctrl() {
                EditAction::RequestPaste
            } else if scancode == Scancode::C && modifiers.ctrl() {
                EditAction::Copy
            } else if scancode == Scancode::X && modifiers.ctrl() {
                EditAction::Cut
            } else if scancode == Scancode::Backspace {
                EditAction::DeleteLeft
            } else if scancode == Scancode::Delete {
                EditAction::DeleteRight
            } else {
                match keycode {
                    Keycode::Char(ch) => {
                        let code = ch as u32;
                        if code >= 32 && code != 127 {
                            EditAction::Insert(ch)
                        } else {
                            EditAction::Ignore
                        }
                    },
                    Keycode::Unidentified(_) => EditAction::Ignore,
                }
            }
        },
    }
}

/// The clipboard `after` is `before` with a request to write the text selected by `sel` in
/// `bytes`, or unchanged when nothing is selected.
pub open spec fn copied(
    sel: TextSelection,
    bytes: Seq<u8>,
    before: ClipboardModel,
    after: ClipboardModel,
) -> bool {
    if sel.start == sel.end {
        after == before
    } else {
        &&& after.write matches Some(w)
        &&& utf8(after.write->0.payload) == bytes.subrange(sel_lo(sel) as int, sel_hi(sel) as int)
        &&& after == request_write_step(before, after.write->0.payload)
    }
}

/// Puts the selected text into a clipboard write request.
fn copy_selection(selection: &TextSelection, text: &str, clipboard: &mut ClipboardService)
    requires
        selection_valid(*selection, text.spec_bytes()),
        selection.start != selection.end ==> old(clipboard)@.frame_start is Some,
    ensures
        copied(*selection, text.spec_bytes(), old(clipboard)@, final(clipboard)@),
{
    if let Some(copy) = selection.copy(text) {
        let payload = copy.to_string();
        proof {
            assert(utf8(payload@) == copy.spec_bytes());
        }
        clipboard.request_write(payload);
    }
}

/// The action asks the clipboard: a paste request always does, a copy or a cut only when text
/// is selected.
pub open spec fn needs_clipboard_frame(action: EditAction, sel: TextSelection) -> bool {
    action is RequestPaste || ((action is Copy || action is Cut) && sel.start != sel.end)
}

/// What `action` did to the selection, the text's bytes and the clipboard of editable text
/// `key`: the state goes from `s0`, `b0`, `c0` to `s1`, `b1`, `c1`.
pub open spec fn edited(
    action: EditAction,
    modifiers: Modifiers,
    key: Key,
    s0: TextSelection,
    b0: Seq<u8>,
    c0: ClipboardModel,
    s1: TextSelection,
    b1: Seq<u8>,
    c1: ClipboardModel,
) -> bool {
    match action {
        EditAction::MoveLeft => moved_left(s0, b0, modifiers.shift, s1) && b1 == b0 && c1 == c0,
        EditAction::MoveRight => moved_right(s0, b0, modifiers.shift, s1) && b1 == b0 && c1 == c0,
        EditAction::MoveHome => moved_home(s0, b0, modifiers.shift, s1) && b1 == b0 && c1 == c0,
        EditAction::MoveEnd => moved_end(s0, b0, modifiers.shift, s1) && b1 == b0 && c1 == c0,
        EditAction::RequestPaste => s1 == s0 && b1 == b0 && c1 == request_read_step(c0, key),
        EditAction::Copy => s1 == s0 && b1 == b0 && copied(s0, b0, c0, c1),
        EditAction::Cut => deleted_selection(s0, b0, s1, b1) && copied(s0, b0, c0, c1),
        EditAction::DeleteLeft => deleted_left(s0, b0, s1, b1) && c1 == c0,
        EditAction::DeleteRight => deleted_right(s0, b0, s1, b1) && c1 == c0,
        EditAction::Insert(ch) => replaced_selection(s0, b0, encode_scalar(ch as u32), s1, b1) && c1
            == c0,
        EditAction::Ignore => s1 == s0 && b1 == b0 && c1 == c0,
    }
}

/// Editable text reacts to a key event of the frame: it moves the cursor, edits the text or
/// asks the clipboard, as [`edit_action`] says, and returns the action taken.
pub fn editable_on_key(
    selection: &mut TextSelection,
    text: &mut String,
    key: Key,
    clipboard: &mut ClipboardService,
    modifiers: Modifiers,
    event: KeyboardEvent,
) -> (r: EditAction)
    requires
        selection_valid(*old(selection), utf8(old(text)@)),
        edit_action(event, modifiers) is Insert ==> utf8(old(text)@).len() + 4 <= isize::MAX,
        needs_clipboard_frame(edit_action(event, modifiers), *old(selection)) ==> old(
            clipboard,
        )@.frame_start is Some,
    ensures
        r == edit_action(event, modifiers),
        selection_valid(*final(selection), utf8(final(text)@)),
        edited(
            r,
            modifiers,
            key,
            *old(selection),
            utf8(old(text)@),
            old(clipboard)@,
            *final(selection),
            utf8(final(text)@),
            final(clipboard)@,
        ),
{
    let action = edit_action_of(event, modifiers);
    let shift = modifiers.shift();
    match action {
        EditAction::MoveLeft => selection.move_left(text.as_str(), shift),
        EditAction::MoveRight => selection.move_right(text.as_str(), shift),
        EditAction::MoveHome => selection.move_home(text.as_str(), shift),
        EditAction::MoveEnd => selection.move_end(text.as_str(), shift),
        EditAction::RequestPaste => clipboard.request_read(key),
        EditAction::Copy => copy_selection(selection, text.as_str(), clipboard),
        EditAction::Cut => {
            copy_selection(selection, text.as_str(), clipboard);
            selection.delete_selection(text);
        },
        EditAction::DeleteLeft => selection.delete_left(text),
        EditAction::DeleteRight => selection.delete_right(text),
        EditAction::Insert(ch) => selection.insert_char(text, ch),
        EditAction::Ignore => {},
    }
    action
}

/// Editable text takes the answer to its paste request, if it has arrived: the pasted text
/// replaces the selection. A failed read is consumed and changes nothing. Returns whether
/// text was pasted.
pub fn editable_take_paste(
    selection: &mut TextSelection,
    text: &mut String,
    key: Key,
    clipboard: &mut ClipboardService,
) -> (r: bool)
    requires
        selection_valid(*old(selection), utf8(old(text)@)),
        takes_read(old(clipboard)@, key) ==> (old(clipboard)@.read->0.payload matches Some(Some(t))
            ==> utf8(old(text)@).len() + utf8(t).len() <= isize::MAX),
    ensures
        selection_valid(*final(selection), utf8(final(text)@)),
        takes_read(old(clipboard)@, key) ==> final(clipboard)@ == (ClipboardModel {
            read: None,
            ..old(clipboard)@
        }),
        !takes_read(old(clipboard)@, key) ==> final(clipboard)@ == old(clipboard)@,
        r == (takes_read(old(clipboard)@, key) && old(clipboard)@.read->0.payload->0 is Some),
        r ==> replaced_selection(
            *old(selection),
            utf8(old(text)@),
            utf8(old(clipboard)@.read->0.payload->0->0),
            *final(selection),
            utf8(final(text)@),
        ),
        !r ==> *final(selection) == *old(selection) && final(text)@ == old(text)@,
{
    match clipboard.try_take_read(key) {
        Some(pasta) => {
            selection.paste(text, pasta.as_str());
            true
        },
        None => false,
    }
}

/// What selectable (read-only) text does with a key event.
#[derive(Debug, Clone, Copy, PartialEq, Eq, Structural)]
pub enum SelectAction {
    ExtendLeft,
    ExtendRight,
    ExtendHome,
    ExtendEnd,
    Copy,
    Ignore,
}

/// The key bindings of selectable text: Shift with the arrows, Home or End extends the
/// selection, Ctrl+C copies it. Only presses count.
pub open spec fn select_action(event: KeyboardEvent, modifiers: Modifiers) -> SelectAction {
    match event {
        KeyboardEvent::Key { state, scancode, .. } => {
            if state != KeyState::Pressed {
                SelectAction::Ignore
            } else if scancode == Scancode::ArrowLeft && modifiers.shift {
                SelectAction::ExtendLeft
            } else if scancode == Scancode::ArrowRight && modifiers.shift {
                SelectAction::ExtendRight
            } else if scancode == Scancode::Home && modifiers.shift {
                SelectAction::ExtendHome
            } else if scancode == Scancode::End && modifiers.shift {
                SelectAction::ExtendEnd
            } else if scancode == Scancode::C && modifiers.ctrl {
                SelectAction::Copy
            } else {
                SelectAction::Ignore
            }
        },
    }
}

/// The action that selectable text takes on `event`.
pub fn select_action_of(event: KeyboardEvent, modifiers: Modifiers) -> (r: SelectAction)
    ensures
        r == select_action(event, modifiers),
{
    let KeyboardEvent::Key { state, scancode, .. } = event;
    if state != KeyState::Pressed {
        SelectAction::Ignore
    } else if scancode == Scancode::ArrowLeft && modifiers.shift() {
        SelectAction::ExtendLeft
    } else if scancode == Scancode::ArrowRight && modifiers.shift() {
        SelectAction::ExtendRight
    } else if scancode == Scancode::Home && modifiers.shift() {
        SelectAction::ExtendHome
    } else if scancode == Scancode::End && modifiers.shift() {
        SelectAction::ExtendEnd
    } else if scancode == Scancode::C && modifiers.ctrl() {
        SelectAction::Copy
    } else {
        SelectAction::Ignore
    }
}

/// What `action` did to the selection and the clipboard of selectable text with bytes `b`:
/// the state goes from `s0`, `c0` to `s1`, `c1`.
pub open spec fn selected(
    action: SelectAction,
    b: Seq<u8>,
    s0: TextSelection,
    c0: ClipboardModel,
    s1: TextSelection,
    c1: ClipboardModel,
) -> bool {
    match action {
        SelectAction::ExtendLeft => moved_left(s0, b, true, s1) && c1 == c0,
        SelectAction::ExtendRight => moved_right(s0, b, true, s1) && c1 == c0,
        SelectAction::ExtendHome => moved_home(s0, b, true, s1) && c1 == c0,
        SelectAction::ExtendEnd => moved_end(s0, b, true, s1) && c1 == c0,
        SelectAction::Copy => s1 == s0 && copied(s0, b, c0, c1),
        SelectAction::Ignore => s1 == s0 && c1 == c0,
    }
}

/// Selectable text reacts to a key event of the frame, as [`select_action`] says, and returns
/// the action taken.
pub fn selectable_on_key(
    selection: &mut TextSelection,
    text: &str,
    clipboard: &mut ClipboardService,
    modifiers: Modifiers,
    event: KeyboardEvent,
) -> (r: SelectAction)
    requires
        selection_valid(*old(selection), text.spec_bytes()),
        select_action(event, modifiers) is Copy && old(selection).start != old(selection).end
            ==> old(clipboard)@.frame_start is Some,
    ensures
        r == select_action(event, modifiers),
        selection_valid(*final(selection), text.spec_bytes()),
        selected(r, text.spec_bytes(), *old(selection), old(clipboard)@, *final(selection), final(clipboard)@),
{
    let KeyboardEvent::Key { state, scancode, .. } = event;
    if state != KeyState::Pressed {
        SelectAction::Ignore
    } else if scancode == Scancode::ArrowLeft && modifiers.shift() {
        selection.move_left(text, true);
        SelectAction::ExtendLeft
    } else if scancode == Scancode::ArrowRight && modifiers.shift() {
        selection.move_right(text, true);
        SelectAction::ExtendRight
    } else if scancode == Scancode::Home && modifiers.shift() {
        selection.move_home(text, true);
        SelectAction::ExtendHome
    } else if scancode == Scancode::End && modifiers.shift() {
        selection.move_end(text, true);
        SelectAction::ExtendEnd
    } else if scancode == Scancode::C && modifiers.ctrl() {
        copy_selection(selection, text, clipboard);
        SelectAction::Copy
    } else {
        SelectAction::Ignore
    }
}

/// Text reacts to the primary pointer button, pressed or dragged after a press inside the
/// widget, over byte `offset` of the text: a press puts the cursor there, a drag moves the
/// cursor there and keeps the anchor.
pub fn on_pointer(selection: &mut TextSelection, offset: usize, pressed: bool)
    ensures
        pressed ==> *final(selection) == cursor_at(offset),
        !pressed ==> *final(selection) == (TextSelection { start: old(selection).start, end: offset }),
{
    if pressed {
        *selection = TextSelection::from_range(offset..offset);
    } else {
        selection.end = offset;
    }
}


// ---- laws of the key bindings

/// A press of `scancode`, whatever key character and repeat flag it carries.
pub open spec fn is_press(event: KeyboardEvent, scancode: Scancode) -> bool {
    event matches KeyboardEvent::Key { state, scancode: sc, .. } && state == KeyState::Pressed && sc
        == scancode
}

/// Delete and Backspace are told apart: in editable text Delete deletes to the right and
/// Backspace to the left, whatever modifiers are held.
pub proof fn law_delete_and_backspace_differ(del: KeyboardEvent, bsp: KeyboardEvent, modifiers: Modifiers)
    requires
        is_press(del, Scancode::Delete),
        is_press(bsp, Scancode::Backspace),
    ensures
        edit_action(del, modifiers) == EditAction::DeleteRight,
        edit_action(bsp, modifiers) == EditAction::DeleteLeft,
        edit_action(del, modifiers) != edit_action(bsp, modifiers),
{
}

/// Delete removes the character after the cursor: with nothing selected, the cursor stays
/// where it is, the text before it stays, the text after it loses its first bytes, and some
/// bytes go whenever there is text after the cursor. The clipboard is untouched.
pub proof fn law_delete_removes_after_cursor(
    event: KeyboardEvent,
    modifiers: Modifiers,
    key: Key,
    s0: TextSelection,
    b0: Seq<u8>,
    c0: ClipboardModel,
    s1: TextSelection,
    b1: Seq<u8>,
    c1: ClipboardModel,
)
    requires
        is_press(event, Scancode::Delete),
        s0.start == s0.end,
        selection_valid(s0, b0),
        edited(edit_action(event, modifiers), modifiers, key, s0, b0, c0, s1, b1, c1),
    ensures
        s1 == s0,
        c1 == c0,
        b1.len() <= b0.len(),
        s0.end < b0.len() ==> b1.len() < b0.len(),
        b1.subrange(0, s0.end as int) == b0.subrange(0, s0.end as int),
        b1.subrange(s0.end as int, b1.len() as int) == b0.subrange(
            s0.end + b0.len() - b1.len(),
            b0.len() as int,
        ),
{
    let c = s0.start as int;
    let next = choose|next: int|
        {
            &&& is_next_boundary(b0, c, next)
            &&& b1 == splice(b0, c, next, Seq::empty())
            &&& s1 == s0
        };
    assert(b1.subrange(0, c) =~= b0.subrange(0, c));
    assert(b1.subrange(c, b1.len() as int) =~= b0.subrange(next, b0.len() as int));
}

/// Backspace removes the character before the cursor: with nothing selected, the cursor moves
/// back (whenever it is not at the start) and stays a cursor, the text after the old cursor
/// position follows the new one, the text before the new position stays, and the clipboard is
/// untouched.
pub proof fn law_backspace_removes_before_cursor(
    event: KeyboardEvent,
    modifiers: Modifiers,
    key: Key,
    s0: TextSelection,
    b0: Seq<u8>,
    c0: ClipboardModel,
    s1: TextSelection,
    b1: Seq<u8>,
    c1: ClipboardModel,
)
    requires
        is_press(event, Scancode::Backspace),
        s0.start == s0.end,
        selection_valid(s0, b0),
        edited(edit_action(event, modifiers), modifiers, key, s0, b0, c0, s1, b1, c1),
    ensures
        s1.start == s1.end,
        s1.end <= s0.end,
        s0.end > 0 ==> s1.end < s0.end,
        c1 == c0,
        b1.subrange(0, s1.end as int) == b0.subrange(0, s1.end as int),
        b1.subrange(s1.end as int, b1.len() as int) == b0.subrange(s0.end as int, b0.len() as int),
{
    let (lo, c) = (s1.start as int, s0.start as int);
    assert(b1.subrange(0, lo) =~= b0.subrange(0, lo));
    assert(b1.subrange(lo, b1.len() as int) =~= b0.subrange(c, b0.len() as int));
}

/// The arrow, Home and End keys move the cursor of editable text without touching the text
/// or the clipboard: left and Home never move it right, right and End never move it left,
/// the arrows move it by a character when there is one, Home stops at a line start and End at
/// a line end. With nothing selected, or with Shift held, the cursor end moves; Shift keeps
/// the anchor.
pub proof fn law_editable_cursor_keys(
    event: KeyboardEvent,
    modifiers: Modifiers,
    key: Key,
    s0: TextSelection,
    b0: Seq<u8>,
    c0: ClipboardModel,
    s1: TextSelection,
    b1: Seq<u8>,
    c1: ClipboardModel,
)
    requires
        s0.start == s0.end || modifiers.shift,
        selection_valid(s0, b0),
        edited(edit_action(event, modifiers), modifiers, key, s0, b0, c0, s1, b1, c1),
    ensures
        is_press(event, Scancode::ArrowLeft) || is_press(event, Scancode::ArrowRight) || is_press(
            event,
            Scancode::Home,
        ) || is_press(event, Scancode::End) ==> {
            &&& b1 == b0
            &&& c1 == c0
            &&& modifiers.shift ==> s1.start == s0.start
            &&& !modifiers.shift ==> s1.start == s1.end
        },
        is_press(event, Scancode::ArrowLeft) ==> s1.end <= s0.end && (s0.end > 0 ==> s1.end < s0.end),
        is_press(event, Scancode::ArrowRight) ==> s1.end >= s0.end && (s0.end < b0.len() ==> s1.end
            > s0.end),
        is_press(event, Scancode::Home) ==> s1.end <= s0.end && (s1.end == 0 || b0[s1.end - 1]
            == newline()),
        is_press(event, Scancode::End) ==> s0.end <= s1.end <= b0.len() && (s1.end == b0.len()
            || b0[s1.end as int] == newline()),
{
}

/// Shift with the arrows, Home or End extends the selection of selectable text: the anchor
/// stays, the cursor end moves (left and Home never to the right, right and End never to the
/// left; Home to a line start, End to a line end) and the clipboard is untouched.
pub proof fn law_selectable_shift_keys(
    event: KeyboardEvent,
    modifiers: Modifiers,
    b: Seq<u8>,
    s0: TextSelection,
    c0: ClipboardModel,
    s1: TextSelection,
    c1: ClipboardModel,
)
    requires
        modifiers.shift,
        selection_valid(s0, b),
        selected(select_action(event, modifiers), b, s0, c0, s1, c1),
    ensures
        is_press(event, Scancode::ArrowLeft) || is_press(event, Scancode::ArrowRight) || is_press(
            event,
            Scancode::Home,
        ) || is_press(event, Scancode::End) ==> s1.start == s0.start && c1 == c0,
        is_press(event, Scancode::ArrowLeft) ==> s1.end <= s0.end && (s0.end > 0 ==> s1.end < s0.end),
        is_press(event, Scancode::ArrowRight) ==> s1.end >= s0.end && (s0.end < b.len() ==> s1.end
            > s0.end),
        is_press(event, Scancode::Home) ==> s1.end <= s0.end && (s1.end == 0 || b[s1.end - 1]
            == newline()),
        is_press(event, Scancode::End) ==> {
            &&& s0.end <= s1.end <= b.len()
            &&& s1.end == b.len() || b[s1.end as int] == newline()
            &&& forall|j: int| s0.end <= j < s1.end ==> b[j] != newline()
        },
{
}

/// Without Shift the arrows, Home and End do nothing to selectable text, and a key release
/// does nothing at all.
pub proof fn law_selectable_plain_keys(
    event: KeyboardEvent,
    modifiers: Modifiers,
    b: Seq<u8>,
    s0: TextSelection,
    c0: ClipboardModel,
    s1: TextSelection,
    c1: ClipboardModel,
)
    requires
        selected(select_action(event, modifiers), b, s0, c0, s1, c1),
        (!modifiers.shift && (is_press(event, Scancode::ArrowLeft) || is_press(
            event,
            Scancode::ArrowRight,
        ) || is_press(event, Scancode::Home) || is_press(event, Scancode::End))) || (event matches KeyboardEvent::Key { state, .. } && state != KeyState::Pressed),
    ensures
        s1 == s0,
        c1 == c0,
{
}

/// With Ctrl held, V asks the clipboard to read for this widget, and C and X put the selected
/// text in a write request (nothing is requested when nothing is selected); V and C leave the
/// text and the selection alone, X also deletes the selection and leaves the cursor where it
/// started.
pub proof fn law_editable_clipboard_keys(
    event: KeyboardEvent,
    modifiers: Modifiers,
    key: Key,
    s0: TextSelection,
    b0: Seq<u8>,
    c0: ClipboardModel,
    s1: TextSelection,
    b1: Seq<u8>,
    c1: ClipboardModel,
)
    requires
        modifiers.ctrl,
        selection_valid(s0, b0),
        edited(edit_action(event, modifiers), modifiers, key, s0, b0, c0, s1, b1, c1),
    ensures
        is_press(event, Scancode::V) ==> {
            &&& s1 == s0 && b1 == b0
            &&& c1.read matches Some(r) && r.key == key && r.payload is None
            &&& c1.write == c0.write
        },
        is_press(event, Scancode::C) ==> s1 == s0 && b1 == b0,
        is_press(event, Scancode::C) || is_press(event, Scancode::X) ==> {
            &&& c1.read == c0.read
            &&& s0.start == s0.end ==> c1 == c0
            &&& s0.start != s0.end ==> (c1.write matches Some(w) && utf8(w.payload) == b0.subrange(
                sel_lo(s0) as int,
                sel_hi(s0) as int,
            ))
        },
        is_press(event, Scancode::X) && s0.start != s0.end ==> {
            &&& b1 == b0.subrange(0, sel_lo(s0) as int) + b0.subrange(sel_hi(s0) as int, b0.len() as int)
            &&& s1 == cursor_at(sel_lo(s0))
        },
        is_press(event, Scancode::X) && s0.start == s0.end ==> s1 == s0 && b1 == b0,
{
    if is_press(event, Scancode::X) && s0.start != s0.end {
        assert(b1 =~= b0.subrange(0, sel_lo(s0) as int) + b0.subrange(sel_hi(s0) as int, b0.len() as int));
    }
}

/// Typing a printable character, with no other binding on its key, replaces the selection by
/// the character's UTF-8 bytes and puts the cursor right after them; the text around the
/// selection stays and the clipboard is untouched.
pub proof fn law_typing_inserts_at_cursor(
    event: KeyboardEvent,
    modifiers: Modifiers,
    key: Key,
    ch: char,
    s0: TextSelection,
    b0: Seq<u8>,
    c0: ClipboardModel,
    s1: TextSelection,
    b1: Seq<u8>,
    c1: ClipboardModel,
)
    requires
        event matches KeyboardEvent::Key { state, scancode, keycode, .. } && state == KeyState::Pressed
            && keycode == Keycode::Char(ch) && scancode != Scancode::ArrowLeft && scancode
            != Scancode::ArrowRight && scancode != Scancode::Home && scancode != Scancode::End
            && scancode != Scancode::Backspace && scancode != Scancode::Delete && !(modifiers.ctrl
            && (scancode == Scancode::V || scancode == Scancode::C || scancode == Scancode::X)),
        ch as u32 >= 32,
        ch as u32 != 127,
        selection_valid(s0, b0),
        edited(edit_action(event, modifiers), modifiers, key, s0, b0, c0, s1, b1, c1),
    ensures
        c1 == c0,
        b1 == b0.subrange(0, sel_lo(s0) as int) + encode_scalar(ch as u32) + b0.subrange(
            sel_hi(s0) as int,
            b0.len() as int,
        ),
        s1 == cursor_at((sel_lo(s0) + encode_scalar(ch as u32).len()) as usize),
{
}

/// Ctrl+C in selectable text puts the selected text in a write request and keeps the
/// selection; nothing is requested when nothing is selected.
pub proof fn law_selectable_copy(
    event: KeyboardEvent,
    modifiers: Modifiers,
    b: Seq<u8>,
    s0: TextSelection,
    c0: ClipboardModel,
    s1: TextSelection,
    c1: ClipboardModel,
)
    requires
        modifiers.ctrl,
        is_press(event, Scancode::C),
        selected(select_action(event, modifiers), b, s0, c0, s1, c1),
    ensures
        s1 == s0,
        c1.read == c0.read,
        s0.start == s0.end ==> c1 == c0,
        s0.start != s0.end ==> (c1.write matches Some(w) && utf8(w.payload) == b.subrange(
            sel_lo(s0) as int,
            sel_hi(s0) as int,
        )),
{
}

// ---- a frame of a text widget

/// An input event as a text widget sees it: a key event, or the primary pointer button pressed,
/// or dragged after a press inside the widget, over byte `offset` of the text (the caller
/// hit-tests the pointer against the laid-out text when the event comes).
#[derive(Debug, Clone, Copy, PartialEq, Eq, Structural)]
pub enum TextEvent {
    Keyboard(KeyboardEvent),
    Pointer { offset: usize, pressed: bool },
}

/// Whether text widget `key` is hot and active this frame. Flags given to the widget are
/// taken as they are; when neither was given, the widget reports to the interaction state
/// whether the pointer is `inside` it and whether the primary button was just `pressed`
/// (asking for the text cursor), and the flags are what the interaction state then says.
pub fn resolve_hot_active(
    interaction: &mut InteractionState,
    key: Key,
    hot: Option<bool>,
    active: Option<bool>,
    inside: bool,
    pressed: bool,
) -> (r: (bool, bool))
    ensures
        hot is None && active is None ==> final(interaction)@ == hover_step(
            old(interaction)@,
            key,
            inside,
            pressed,
            CursorShape::Text,
        ) && r == (final(interaction)@.hot == Some(key), final(interaction)@.active == Some(key)),
        !(hot is None && active is None) ==> final(interaction)@ == old(interaction)@ && r == (
        hot == Some(true), active == Some(true)),
{
    if hot.is_none() && active.is_none() {
        interaction.maybe_set_hot_or_active(key, inside, pressed, CursorShape::Text);
        (interaction.is_hot(key), interaction.is_active(key))
    } else {
        (hot == Some(true), active == Some(true))
    }
}

/// The selection after a pointer event over byte `offset`: a press puts the cursor there, a
/// drag moves the cursor there and keeps the anchor.
pub open spec fn pointed(s0: TextSelection, offset: usize, pressed: bool) -> TextSelection {
    if pressed {
        cursor_at(offset)
    } else {
        TextSelection { start: s0.start, end: offset }
    }
}

/// Editable text `key` reacts to an event of the frame when it is `active`, and returns the
/// action a key event took. An inactive widget ignores the event: its selection, its text and
/// the clipboard stay as they were.
pub fn editable_on_event(
    active: bool,
    selection: &mut TextSelection,
    text: &mut String,
    key: Key,
    clipboard: &mut ClipboardService,
    modifiers: Modifiers,
    event: TextEvent,
) -> (r: Option<EditAction>)
    requires
        active ==> selection_valid(*old(selection), utf8(old(text)@)),
        active ==> (event matches TextEvent::Keyboard(k) ==> {
            &&& edit_action(k, modifiers) is Insert ==> utf8(old(text)@).len() + 4 <= isize::MAX
            &&& needs_clipboard_frame(edit_action(k, modifiers), *old(selection)) ==> old(
                clipboard,
            )@.frame_start is Some
        }),
        active ==> (event matches TextEvent::Pointer { offset, .. } ==> on_boundary(
            utf8(old(text)@),
            offset as int,
        )),
    ensures
        !active ==> r is None && *final(selection) == *old(selection) && final(text)@ == old(text)@
            && final(clipboard)@ == old(clipboard)@,
        active ==> selection_valid(*final(selection), utf8(final(text)@)),
        active ==> (event matches TextEvent::Keyboard(k) ==> r == Some(edit_action(k, modifiers))
            && edited(
            edit_action(k, modifiers),
            modifiers,
            key,
            *old(selection),
            utf8(old(text)@),
            old(clipboard)@,
            *final(selection),
            utf8(final(text)@),
            final(clipboard)@,
        )),
        active ==> (event matches TextEvent::Pointer { offset, pressed } ==> r is None
            && *final(selection) == pointed(*old(selection), offset, pressed) && final(text)@ == old(
            text,
        )@ && final(clipboard)@ == old(clipboard)@),
{
    if !active {
        return None;
    }
    match event {
        TextEvent::Keyboard(k) => Some(editable_on_key(selection, text, key, clipboard, modifiers, k)),
        TextEvent::Pointer { offset, pressed } => {
            on_pointer(selection, offset, pressed);
            None
        },
    }
}

/// Ends the frame of editable text `key`: when it is `active` it takes the answer to its paste
/// request, as [`editable_take_paste`] does, and returns whether text was pasted. An inactive
/// widget takes nothing: its selection, its text and the clipboard stay as they were.
pub fn editable_end_frame(
    active: bool,
    selection: &mut TextSelection,
    text: &mut String,
    key: Key,
    clipboard: &mut ClipboardService,
) -> (r: bool)
    requires
        active ==> selection_valid(*old(selection), utf8(old(text)@)),
        active && takes_read(old(clipboard)@, key) ==> (old(clipboard)@.read->0.payload matches Some(
            Some(t),
        ) ==> utf8(old(text)@).len() + utf8(t).len() <= isize::MAX),
    ensures
        !active ==> !r && *final(selection) == *old(selection) && final(text)@ == old(text)@
            && final(clipboard)@ == old(clipboard)@,
        active ==> selection_valid(*final(selection), utf8(final(text)@)),
        active && takes_read(old(clipboard)@, key) ==> final(clipboard)@ == (ClipboardModel {
            read: None,
            ..old(clipboard)@
        }),
        active && !takes_read(old(clipboard)@, key) ==> final(clipboard)@ == old(clipboard)@,
        r == (active && takes_read(old(clipboard)@, key) && old(clipboard)@.read->0.payload->0 is Some),
        r ==> replaced_selection(
            *old(selection),
            utf8(old(text)@),
            utf8(old(clipboard)@.read->0.payload->0->0),
            *final(selection),
            utf8(final(text)@),
        ),
        !r ==> *final(selection) == *old(selection) && final(text)@ == old(text)@,
{
    if !active {
        return false;
    }
    editable_take_paste(selection, text, key, clipboard)
}

/// Selectable text reacts to an event of the frame when it is `active`, and returns the action
/// a key event took. An inactive widget ignores the event: its selection and the clipboard
/// stay as they were.
pub fn selectable_on_event(
    active: bool,
    selection: &mut TextSelection,
    text: &str,
    clipboard: &mut ClipboardService,
    modifiers: Modifiers,
    event: TextEvent,
) -> (r: Option<SelectAction>)
    requires
        active ==> selection_valid(*old(selection), text.spec_bytes()),
        active ==> (event matches TextEvent::Keyboard(k) ==> (select_action(k, modifiers) is Copy
            && old(selection).start != old(selection).end ==> old(clipboard)@.frame_start is Some)),
        active ==> (event matches TextEvent::Pointer { offset, .. } ==> on_boundary(
            text.spec_bytes(),
            offset as int,
        )),
    ensures
        !active ==> r is None && *final(selection) == *old(selection) && final(clipboard)@ == old(
            clipboard,
        )@,
        active ==> selection_valid(*final(selection), text.spec_bytes()),
        active ==> (event matches TextEvent::Keyboard(k) ==> r == Some(select_action(k, modifiers))
            && selected(
            select_action(k, modifiers),
            text.spec_bytes(),
            *old(selection),
            old(clipboard)@,
            *final(selection),
            final(clipboard)@,
        )),
        active ==> (event matches TextEvent::Pointer { offset, pressed } ==> r is None
            && *final(selection) == pointed(*old(selection), offset, pressed) && final(clipboard)@
            == old(clipboard)@),
{
    if !active {
        return None;
    }
    match event {
        TextEvent::Keyboard(k) => Some(selectable_on_key(selection, text, clipboard, modifiers, k)),
        TextEvent::Pointer { offset, pressed } => {
            on_pointer(selection, offset, pressed);
            None
        },
    }
}

/// Whether the character at which a line breaks is consumed by the break instead of starting
/// the next line: white space is (the Unicode `White_Space` property, as `char::is_whitespace`
/// has it), so that `\n` and the space where a line wraps are not drawn.
pub fn should_consume_post_line_break_char(ch: char) -> (r: bool)
    ensures
        r == is_white_space(ch),
{
    let v = ch as u32;
    (0x9 <= v && v <= 0xd) || v == 0x20 || v == 0x85 || v == 0xa0 || v == 0x1680 || (0x2000 <= v
        && v <= 0x200a) || v == 0x2028 || v == 0x2029 || v == 0x202f || v == 0x205f || v == 0x3000
}

} // verus!
