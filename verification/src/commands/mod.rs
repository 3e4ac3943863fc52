//! What the commands decide.

pub mod cargo_tasks;
pub mod clean;
pub mod debug_packages;
pub mod icons;
pub mod init;
pub mod migrate;
pub mod plan;
pub mod pre_commit;
pub mod pre_push;
pub mod status;
