//! Layout directions.
use vstd::prelude::*;

verus! {

/// The main axis along which a stack places its elements.
#[derive(Debug, Clone, Copy, PartialEq, Eq, Structural)]
pub enum Direction {
    Horizontal,
    Vertical,
}

} // verus!
