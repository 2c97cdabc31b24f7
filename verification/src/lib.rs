//! Course platform core: course model, content directives, and HTML rendering.
mod text;
mod toml_doc;
pub mod json_doc;
pub mod error;
pub mod directives;
pub mod assets;
pub mod course;
pub mod section;
pub mod manifest;
pub mod catalog;
pub mod render;
pub mod markdown;
pub mod solutions;
pub mod slides;
pub mod dev;
pub mod notifications;
pub mod events;
pub mod health;
pub mod faults;
pub mod echo;
pub mod goto_apps;
pub mod file_apps;
pub mod xtask;
