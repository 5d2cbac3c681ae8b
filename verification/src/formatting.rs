//! Received bytes as rows of text or HEX: incremental display, complete formatting and export.

pub mod complete;
pub mod display;
pub mod export;
pub mod hex;
pub mod input;
pub mod laws;
pub mod lines;
pub mod pieces;
pub mod rows;
pub mod runs;
pub mod sending;
pub mod showing;
pub mod text;

pub use crate::formatting::complete::format_snapshot;
pub use crate::formatting::display::{
    display_snapshot_limit, DisplayFormatter, DisplayLimits, DisplayUpdate, DisplayUpdateError,
    MAX_DISPLAY_INCREMENT_BYTES, MAX_DISPLAY_LINE_BYTES, MAX_DISPLAY_ROWS, MAX_DISPLAY_TEXT_BYTES,
};
pub use crate::formatting::export::{write_export, ExportStream};
pub use crate::formatting::input::{encode_text, parse_hex, parse_send_input};
pub use crate::formatting::rows::{display_text, FormattedRow};
pub use crate::timestamp::{
    format_timestamp, is_valid_timestamp_format, timestamp_prefix, DEFAULT_TIMESTAMP_FORMAT,
};
