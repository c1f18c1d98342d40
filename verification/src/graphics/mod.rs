use vstd::prelude::*;

pub mod ansi;
pub mod bytes;
pub mod display;
pub mod graphics_task;
pub mod headless;
pub mod message_filter;
pub mod palette;
pub mod render;
pub mod screen;
pub mod buffer;
pub mod selection;
pub mod special_char;

verus! {

/// Things that can be written out as one line of text (a saved history).
pub trait Serialize {
    fn serialize(&self) -> String;
}

} // verus!
