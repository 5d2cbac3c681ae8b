//! The terminal view: received bytes as the screen that they draw.

pub mod actions;
pub mod formatter;
pub mod laws;
pub mod machine;
pub mod picture;
pub mod plain;
pub mod screen;
pub mod sequences;

pub use crate::terminal::formatter::{IncrementalTerminalFormatter, TerminalUpdate};
