//! The core of a serial port viewer: bytes that arrive are kept within limits, shown as text, as
//! HEX or as a terminal screen, searched, highlighted and exported, and input is turned into
//! bytes to send. Windows, files and ports are left to the program around it.

pub mod background;
pub mod chars;
pub mod encoding;
pub mod fonts;
pub mod formatting;
pub mod highlight;
pub mod history;
pub mod icon;
pub mod keyboard;
pub mod lists;
pub mod logging;
pub mod model;
pub mod pane;
pub mod pattern;
pub mod ports;
pub mod search;
pub mod serial_worker;
pub mod session;
pub mod settings;
pub mod status;
pub mod storage;
pub mod store;
pub mod task_state;
pub mod terminal;
pub mod theme;
pub mod timestamp;
pub mod window_chrome;
