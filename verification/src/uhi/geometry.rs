//! Integer vectors of the UI.
use vstd::prelude::*;

verus! {

/// A pair of unsigned integers, such as a texture size.
#[derive(Debug, Default, Clone, Copy, PartialEq, Eq, Structural)]
pub struct U32Vec2 {
    pub x: u32,
    pub y: u32,
}

impl U32Vec2 {
    pub fn new(x: u32, y: u32) -> (v: Self)
        ensures
            v == (U32Vec2 { x, y }),
    {
        Self { x, y }
    }
}

} // verus!
