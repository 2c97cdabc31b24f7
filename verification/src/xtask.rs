//! The decisions of the repository task runner: which steps a clean, or a
//! lint run, performs, and how the dev stack reads its configuration.
pub mod clean;
pub mod dev;
pub mod lint;
