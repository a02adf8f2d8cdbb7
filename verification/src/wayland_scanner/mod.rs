//! Generates Rust bindings from wayland protocol descriptions.

pub mod emit;
pub mod generate;
pub mod parse;
pub mod protocol;
pub mod text;

pub use emit::generate_protocol;
pub use parse::parse_protocol;
pub use protocol::{Arg, ArgType, Entry, Enum, Interface, Message, Protocol};
