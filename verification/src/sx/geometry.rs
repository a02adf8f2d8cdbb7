//! Integer and boolean two-component vectors.
use vstd::prelude::*;

verus! {

/// A pair of booleans, one per axis.
#[derive(Debug, Default, Clone, Copy, PartialEq, Eq, Structural)]
pub struct BVec2 {
    pub x: bool,
    pub y: bool,
}

impl BVec2 {
    pub fn new(x: bool, y: bool) -> (v: Self)
        ensures
            v == (BVec2 { x, y }),
    {
        Self { x, y }
    }

    /// Both components set to `v`.
    pub fn splat(v: bool) -> (r: Self)
        ensures
            r == (BVec2 { x: v, y: v }),
    {
        Self::new(v, v)
    }

    /// Whether some component is set.
    pub fn any(self) -> (r: bool)
        ensures
            r == (self.x || self.y),
    {
        self.x || self.y
    }

    /// Whether every component is set.
    pub fn all(self) -> (r: bool)
        ensures
            r == (self.x && self.y),
    {
        self.x && self.y
    }
}

/// A pair of unsigned integers, such as a texture size or a pixel position.
#[derive(Debug, Default, Clone, Copy, PartialEq, Eq, Structural)]
pub struct U32Vec2 {
    pub x: u32,
    pub y: u32,
}

impl U32Vec2 {
    pub fn new(x: u32, y: u32) -> (v: Self)
        ensures
            v == (U32Vec2 { x, y }),
    {
        Self { x, y }
    }
}

} // verus!
