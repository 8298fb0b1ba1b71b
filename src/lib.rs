//! A text-editing buffer built on a gap buffer: a single character store with
//! a movable free region kept at the edit point.

pub mod gap_buffer;

pub use gap_buffer::{GapBuffer, GapBufferError, END_MARKER};
