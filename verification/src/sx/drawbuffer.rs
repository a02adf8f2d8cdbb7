//! Plain data of the draw buffer: pipeline ids, quads and stroke alignment.
use vstd::prelude::*;

verus! {

/// Identifies a render pipeline; the default id names no pipeline.
#[derive(Debug, Clone, Copy, PartialEq, Eq, Hash, Structural)]
pub struct PipelineId(pub u32);

impl Default for PipelineId {
    fn default() -> (r: Self)
        ensures
            r.0 == u32::MAX,
    {
        PipelineId(u32::MAX)
    }
}

/// A value at each corner of a quad.
#[derive(Debug)]
pub struct Quad<T> {
    pub ne: T,
    pub se: T,
    pub sw: T,
    pub nw: T,
}

impl<T: Copy> Quad<T> {
    /// The same value at every corner.
    pub fn splat(v: T) -> (q: Self)
        ensures
            q.ne == v,
            q.se == v,
            q.sw == v,
            q.nw == v,
    {
        Self { ne: v, se: v, sw: v, nw: v }
    }
}

/// Where a stroke lies relative to the edge of the shape it outlines.
#[derive(Debug, Default, Clone, Copy, PartialEq, Eq, Structural)]
pub enum StrokeAlignment {
    Inside,
    Outside,
    #[default]
    Center,
}

impl StrokeAlignment {
    /// The code that shaders receive: `-1` inside, `1` outside, `0` centered.
    pub fn as_i32(self) -> (r: i32)
        ensures
            r == match self {
                StrokeAlignment::Inside => -1i32,
                StrokeAlignment::Outside => 1i32,
                StrokeAlignment::Center => 0i32,
            },
    {
        match self {
            StrokeAlignment::Inside => -1,
            StrokeAlignment::Outside => 1,
            StrokeAlignment::Center => 0,
        }
    }
}

} // verus!
