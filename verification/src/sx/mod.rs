//! Rendering support of the sx graphics layer.
use vstd::prelude::*;

pub mod color;
pub mod drawbuffer;
pub mod fontservice;
pub mod geometry;
pub mod pipelineservice;
pub mod shaderservice;
pub mod texturepacker;
pub mod textureservice;

verus! {

/// The types that a renderer plugs into the graphics layer.
pub trait Externs {
    /// How the renderer names a texture it created.
    type TextureHandle: core::fmt::Debug;
}

/// Externs that name textures by nothing; for tests.
pub struct UnitExterns;

impl Externs for UnitExterns {
    type TextureHandle = ();
}

} // verus!
