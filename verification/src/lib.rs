//! Verified building blocks of the shin UI toolkit: a range allocator, texture packers,
//! a minimal XML tokenizer, the wayland protocol scanner and the input/text-editing logic.
#![allow(unused_imports)]

pub mod input;
pub mod nohash;
pub mod rangealloc;
pub mod utf8;
pub mod sx;
pub mod uhi;
pub mod w0;
pub mod wayland_scanner;
pub mod window;
pub mod xkbcommon;
pub mod xml_iterator;
