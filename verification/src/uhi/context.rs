//! The UI context's widget keys, shared with the interaction state.

pub use crate::uhi::interactionstate::Key;
