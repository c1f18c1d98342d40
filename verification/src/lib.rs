//! Verified core of a serial-port monitor: the text, byte and key-sequence
//! handling that the terminal front end is built on.

pub mod command_list;
pub mod error_pop_up;
pub mod graphics;
pub mod infra;
pub mod inputs;
pub mod interfaces;
pub mod list;
pub mod settings;
pub mod text;
