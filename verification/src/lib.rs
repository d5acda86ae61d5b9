//! A bounded in-process memory of recent command executions.
//!
//! The library keeps a FIFO window of captured executions, evicts entries
//! that are too old or that would push the window past its byte capacity,
//! renders the retained window as a context string, and classifies input
//! lines for a two-mode interactive dispatch loop.

pub mod dispatch;
pub mod history;
pub mod record;
pub mod render;
