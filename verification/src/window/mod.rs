//! Window-system logic that does not depend on a particular backend.
use vstd::prelude::*;

pub mod input;
pub mod key_repeat;
pub mod libxkbcommon;
pub mod scroll;
pub mod wayland;

verus! {

/// The logical size of a window when none was asked for.
pub const DEFAULT_LOGICAL_SIZE: (u32, u32) = (640, 480);

/// How a window should be created.
#[derive(Debug, Default, Clone)]
pub struct WindowAttrs {
    /// The logical size; when `None` the default size is used.
    pub logical_size: Option<(u32, u32)>,
    pub resizable: bool,
}

impl WindowAttrs {
    /// The logical size to create the window with.
    pub fn resolved_logical_size(&self) -> (r: (u32, u32))
        ensures
            r == match self.logical_size {
                Some(size) => size,
                None => DEFAULT_LOGICAL_SIZE,
            },
    {
        match self.logical_size {
            Some(size) => size,
            None => DEFAULT_LOGICAL_SIZE,
        }
    }
}

/// The MIME type of UTF-8 text.
pub const MIME_TYPE_TEXT: &'static str = "text/plain;charset=utf-8";

/// Clipboard data that is plain text.
pub struct ClipboardTextProvider {
    text: String,
}

impl ClipboardTextProvider {
    pub closed spec fn spec_text(&self) -> Seq<char> {
        self.text@
    }

    pub fn new(text: String) -> (p: Self)
        ensures
            p.spec_text() == text@,
    {
        Self { text }
    }

    /// The text offered to the clipboard.
    pub fn text(&self) -> (r: &str)
        ensures
            r@ == self.spec_text(),
    {
        self.text.as_str()
    }

    /// Whether the provider can write its data as `mime_type`: only as UTF-8 text.
    pub fn supports_mime_type(&self, mime_type: &str) -> (r: bool)
        ensures
            r == (mime_type@ == MIME_TYPE_TEXT@),
    {
        crate::xml_iterator::str_eq(mime_type, MIME_TYPE_TEXT)
    }
}

} // verus!
