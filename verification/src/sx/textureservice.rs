//! Texture descriptions and the commands that create, fill and delete textures.
use vstd::prelude::*;

verus! {

/// Pixel format of a texture.
#[derive(Debug, Clone, Copy, PartialEq, Eq, Structural)]
pub enum TextureFormat {
    Rgba8Unorm,
    R8Unorm,
}

impl TextureFormat {
    /// Bytes per pixel.
    pub fn block_size(&self) -> (r: u8)
        ensures
            r == match *self {
                TextureFormat::Rgba8Unorm => 4u8,
                TextureFormat::R8Unorm => 1u8,
            },
    {
        match self {
            TextureFormat::Rgba8Unorm => 4,
            TextureFormat::R8Unorm => 1,
        }
    }
}

/// Format and size of a texture.
#[derive(Debug, Clone)]
pub struct TextureDesc {
    pub format: TextureFormat,
    pub w: u32,
    pub h: u32,
}

/// A rectangle of texels.
#[derive(Debug, Clone)]
pub struct TextureRegion {
    pub x: u32,
    pub y: u32,
    pub w: u32,
    pub h: u32,
}

/// What a texture command does.
#[derive(Debug)]
pub enum TextureCommandKind<Desc, Buf> {
    Create { desc: Desc },
    Upload { region: TextureRegion, buf: Buf },
    Delete,
}

} // verus!
