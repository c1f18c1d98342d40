//! Keyboard input: keys, their byte encoding on the wire, and the
//! configurable shortcuts.
pub mod command_line;
pub mod history;
pub mod inputs_task;
pub mod ipsum;
pub mod key_decode;
pub mod key_encode;
pub mod keys;
pub mod keymap;
pub mod user_command;
