//! What a renderer provides to the UI.
use vstd::prelude::*;

verus! {

/// A renderer names the textures it creates by its own handles.
pub trait Renderer {
    type TextureHandle: core::fmt::Debug;
}

} // verus!
