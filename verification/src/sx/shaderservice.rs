//! Plain data of shader descriptions.
use vstd::prelude::*;

verus! {

/// Type of a shader uniform.
#[derive(Debug, Clone, Copy, PartialEq, Eq, Structural)]
pub enum ShaderUniformType {
    Int,
    Float,
    Vec2,
    Vec4,
    Mat4,
    Sampler2D,
}

/// Where the text of a shader comes from.
#[derive(Clone)]
pub enum ShaderSourceKind {
    Static(&'static str),
}

} // verus!
