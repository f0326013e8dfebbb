//! Line-oriented bridge between a block-storage file of printer commands and
//! a serial command channel.
//!
//! The library holds the decisions only: every function is a step that takes
//! what the device reported and says what to do next. The caller performs the
//! transfer and hands back the outcome.

pub mod line_buffer;
pub mod text;
pub mod serial;
pub mod storage;
