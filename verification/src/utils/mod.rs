//! Helpers of the commands.

pub mod dir_size;
pub mod progress;
