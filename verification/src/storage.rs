//! Where settings are kept: what is read, written and moved, and in which order.

pub mod document;
pub mod load;
pub mod migration;
pub mod save;
