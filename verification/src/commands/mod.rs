//! Per-command logic.
pub mod console;
pub mod emulation;
pub mod evaluate;
pub mod executor;
pub mod input;
pub mod memory;
pub mod navigate;
pub mod network;
pub mod pages;
pub mod read_page;
pub mod screenshot;
pub mod snapshot;
pub mod sw_logs;
pub mod third_party;
