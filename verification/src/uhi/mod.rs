//! Immediate-mode UI toolkit logic of uhi.
use vstd::prelude::*;

pub mod clipboardservice;
pub mod context;
pub mod drawbuffer;
pub mod fontservice;
pub mod geometry;
pub mod interactionstate;
pub mod layout;
pub mod renderer;
pub mod text;
pub mod texturepacker;
pub mod textureservice;

verus! {

/// The types that a renderer plugs into the UI.
pub trait Externs {
    /// How the renderer names a texture it created.
    type TextureHandle: core::fmt::Debug;
}

} // verus!
