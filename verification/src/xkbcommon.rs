//! Errors of setting up keyboard keymaps.
use crate::wayland_scanner::text::{hexadecimal, push_hexadecimal, push_str};
use vstd::prelude::*;

verus! {

/// Why a keymap and its state could not be created.
#[derive(Debug, Clone, Copy, PartialEq, Eq, Structural)]
pub enum KeymapStateCreationError {
    /// Mapping the keymap file failed with this errno.
    MmapFailed(i32),
    NoKeymap,
    NoState,
}

impl KeymapStateCreationError {
    /// What went wrong, for people; the errno is written in hexadecimal as its 32 bits.
    pub fn message(&self) -> (r: String)
        ensures
            r@ == match *self {
                KeymapStateCreationError::MmapFailed(errno) => "could not mmap: 0x"@ + hexadecimal(
                    errno as u32 as nat,
                ),
                KeymapStateCreationError::NoKeymap => "could not create keymap"@,
                KeymapStateCreationError::NoState => "could not create state"@,
            },
    {
        let mut out = String::new();
        match self {
            KeymapStateCreationError::MmapFailed(errno) => {
                push_str(&mut out, "could not mmap: 0x");
                push_hexadecimal(&mut out, *errno as u32 as u64);
            },
            KeymapStateCreationError::NoKeymap => push_str(&mut out, "could not create keymap"),
            KeymapStateCreationError::NoState => push_str(&mut out, "could not create state"),
        }
        out
    }
}

} // verus!
