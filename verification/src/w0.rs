//! Window sizes and configuration.
use vstd::prelude::*;

verus! {

/// A size in pixels.
#[derive(Debug, Default, Clone, Copy, PartialEq, Eq, Structural)]
pub struct Size {
    pub width: u32,
    pub height: u32,
}

impl Size {
    pub fn new(width: u32, height: u32) -> (s: Self)
        ensures
            s == (Size { width, height }),
    {
        Self { width, height }
    }
}

/// The logical size of a window when none was asked for, as width and height.
pub const DEFAULT_LOGICAL_SIZE: (u32, u32) = (800, 600);

/// What a window reports to its event loop.
#[derive(Debug, Clone, Copy, PartialEq, Eq, Structural)]
pub enum Event {
    /// The window's logical size was set.
    Configure { logical_size: Size },
    CloseRequested,
}

/// How a window should be created.
#[derive(Debug, Default)]
pub struct WindowConfig {
    logical_size: Option<Size>,
}

impl WindowConfig {
    /// The logical size the window was asked to have, if any.
    pub closed spec fn requested_size(&self) -> Option<Size> {
        self.logical_size
    }

    /// The event of a toplevel configure with `width` by `height`: that size when either is
    /// non-zero; when both are zero the window decides, taking the size it was asked to have or
    /// else the default one.
    pub fn configure_event(&self, width: i32, height: i32) -> (r: Event)
        requires
            width >= 0,
            height >= 0,
        ensures
            r == (Event::Configure {
                logical_size: if width > 0 || height > 0 {
                    Size { width: width as u32, height: height as u32 }
                } else {
                    match self.requested_size() {
                        Some(size) => size,
                        None => Size { width: DEFAULT_LOGICAL_SIZE.0, height: DEFAULT_LOGICAL_SIZE.1 },
                    }
                },
            }),
    {
        let logical_size = if width > 0 || height > 0 {
            Size::new(width as u32, height as u32)
        } else {
            match self.logical_size {
                Some(size) => size,
                None => Size::new(DEFAULT_LOGICAL_SIZE.0, DEFAULT_LOGICAL_SIZE.1),
            }
        };
        Event::Configure { logical_size }
    }
}

} // verus!
