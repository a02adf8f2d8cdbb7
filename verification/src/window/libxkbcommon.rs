//! The flag and format values that libxkbcommon takes, each with the number its C interface
//! uses for it.
#![allow(non_camel_case_types)]
use vstd::prelude::*;

verus! {

/// Flags for creating an xkb context.
#[derive(Debug, Clone, Copy, PartialEq, Eq, Structural)]
pub enum xkb_context_flags {
    XKB_CONTEXT_NO_FLAGS,
    XKB_CONTEXT_NO_DEFAULT_INCLUDES,
    XKB_CONTEXT_NO_ENVIRONMENT_NAMES,
}

impl xkb_context_flags {
    /// The value libxkbcommon gives this flag.
    pub fn code(self) -> (r: i32)
        ensures
            r == match self {
                xkb_context_flags::XKB_CONTEXT_NO_FLAGS => 0i32,
                xkb_context_flags::XKB_CONTEXT_NO_DEFAULT_INCLUDES => 1,
                xkb_context_flags::XKB_CONTEXT_NO_ENVIRONMENT_NAMES => 2,
            },
    {
        match self {
            xkb_context_flags::XKB_CONTEXT_NO_FLAGS => 0,
            xkb_context_flags::XKB_CONTEXT_NO_DEFAULT_INCLUDES => 1,
            xkb_context_flags::XKB_CONTEXT_NO_ENVIRONMENT_NAMES => 2,
        }
    }
}

/// Formats a keymap can be read from.
#[derive(Debug, Clone, Copy, PartialEq, Eq, Structural)]
pub enum xkb_keymap_format {
    XKB_KEYMAP_USE_ORIGINAL_FORMAT,
    XKB_KEYMAP_FORMAT_TEXT_V1,
}

impl xkb_keymap_format {
    /// The value libxkbcommon gives this format.
    pub fn code(self) -> (r: i32)
        ensures
            r == match self {
                xkb_keymap_format::XKB_KEYMAP_USE_ORIGINAL_FORMAT => 0i32,
                xkb_keymap_format::XKB_KEYMAP_FORMAT_TEXT_V1 => 1,
            },
    {
        match self {
            xkb_keymap_format::XKB_KEYMAP_USE_ORIGINAL_FORMAT => 0,
            xkb_keymap_format::XKB_KEYMAP_FORMAT_TEXT_V1 => 1,
        }
    }
}

/// Flags for compiling a keymap.
#[derive(Debug, Clone, Copy, PartialEq, Eq, Structural)]
pub enum xkb_keymap_compile_flags {
    XKB_KEYMAP_COMPILE_NO_FLAGS,
}

impl xkb_keymap_compile_flags {
    /// The value libxkbcommon gives this flag.
    pub fn code(self) -> (r: i32)
        ensures
            r == 0,
    {
        0
    }
}

/// Parts of a keyboard state; each is one bit of a mask.
#[derive(Debug, Clone, Copy, PartialEq, Eq, Structural)]
pub enum xkb_state_component {
    XKB_STATE_MODS_DEPRESSED,
    XKB_STATE_MODS_LATCHED,
    XKB_STATE_MODS_LOCKED,
    XKB_STATE_MODS_EFFECTIVE,
    XKB_STATE_LAYOUT_DEPRESSED,
    XKB_STATE_LAYOUT_LATCHED,
    XKB_STATE_LAYOUT_LOCKED,
    XKB_STATE_LAYOUT_EFFECTIVE,
    XKB_STATE_LEDS,
}

impl xkb_state_component {
    /// Position of this component's bit in a mask.
    pub open spec fn bit_index(self) -> nat {
        match self {
            xkb_state_component::XKB_STATE_MODS_DEPRESSED => 0,
            xkb_state_component::XKB_STATE_MODS_LATCHED => 1,
            xkb_state_component::XKB_STATE_MODS_LOCKED => 2,
            xkb_state_component::XKB_STATE_MODS_EFFECTIVE => 3,
            xkb_state_component::XKB_STATE_LAYOUT_DEPRESSED => 4,
            xkb_state_component::XKB_STATE_LAYOUT_LATCHED => 5,
            xkb_state_component::XKB_STATE_LAYOUT_LOCKED => 6,
            xkb_state_component::XKB_STATE_LAYOUT_EFFECTIVE => 7,
            xkb_state_component::XKB_STATE_LEDS => 8,
        }
    }

    /// The value libxkbcommon gives this component: its bit.
    pub fn code(self) -> (r: i32)
        ensures
            r == vstd::arithmetic::power2::pow2(self.bit_index()),
    {
        proof {
            vstd::arithmetic::power2::lemma2_to64();
        }
        match self {
            xkb_state_component::XKB_STATE_MODS_DEPRESSED => 1,
            xkb_state_component::XKB_STATE_MODS_LATCHED => 2,
            xkb_state_component::XKB_STATE_MODS_LOCKED => 4,
            xkb_state_component::XKB_STATE_MODS_EFFECTIVE => 8,
            xkb_state_component::XKB_STATE_LAYOUT_DEPRESSED => 16,
            xkb_state_component::XKB_STATE_LAYOUT_LATCHED => 32,
            xkb_state_component::XKB_STATE_LAYOUT_LOCKED => 64,
            xkb_state_component::XKB_STATE_LAYOUT_EFFECTIVE => 128,
            xkb_state_component::XKB_STATE_LEDS => 256,
        }
    }
}

} // verus!
