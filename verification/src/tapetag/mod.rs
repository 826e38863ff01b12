//! Tagging helpers for local show folders.
pub mod archive_org;
pub mod artwork;
pub mod manifest;
pub mod parser;
pub mod scanner;
