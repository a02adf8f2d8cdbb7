//! Plain data of pipeline descriptions.
use vstd::prelude::*;

verus! {

/// Where the source of a shader comes from.
#[derive(Clone)]
pub enum ShaderSourceKind {
    Static(&'static [u8]),
}

/// The profile named in a GLSL `#version` line.
#[derive(Debug, Clone, Copy, PartialEq, Eq, Structural)]
pub enum GlslProfile {
    Core,
    Compatibility,
    Es,
}

/// What a pipeline command does.
#[derive(Debug)]
pub enum PipelineCommandKind<Desc> {
    Create { desc: Desc },
}

} // verus!
