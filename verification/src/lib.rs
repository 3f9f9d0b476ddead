//! Automation of a text-mode console: capturing what the screen shows,
//! recognising prompts in it, and composing the key presses that answer them.
//!
//! The crate holds the decisions only. Reading the screen buffer, writing to
//! the input queue, the clock and the pause between two polls belong to the
//! caller, who hands their outcomes in as plain values.

pub mod console;
pub mod content;
pub mod error;
pub mod grid;
pub mod matcher;
pub mod screen;
pub mod text;
pub mod wait;
