//! Core logic of a Chrome DevTools Protocol command-line client: request and
//! response framing, browser endpoint resolution, command validation, page
//! and event bookkeeping, and the offline heap-snapshot analysis, each stated
//! and proved with Verus.
pub mod browser;
pub mod cdp;
pub mod cli;
pub mod commands;
pub mod daemon;
pub mod error;
pub mod protocol;
pub mod format;
pub mod result;
pub mod telemetry;
pub mod text;
