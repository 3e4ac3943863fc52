//! Git pre-commit and pre-push hooks for Rust workspaces.
//!
//! The library decides: which checks run and what their output means, which files are
//! written and in which order, what is told. It is handed what was read and what commands
//! printed, as plain values, and does no input or output of its own.

pub mod checks;
pub mod commands;
pub mod config;
pub mod install;
pub mod jobs;
pub mod metadata;
pub mod output;
pub mod paint;
pub mod path;
pub mod shim;
pub mod task;
pub mod text;
pub mod toml;
pub mod utils;
