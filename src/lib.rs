//! A directory-tailing engine: it follows append-only log files and hands out
//! each complete line exactly once, in the order it was written.

pub mod lines;
pub mod events;
pub mod registry;
pub mod tail;
pub mod dispatch;
