//! Verified core of a live-concert archive browser: folder-name parsing,
//! show deduplication, id mapping, caches and menu formatting.
pub mod api;
pub mod bman;
pub mod browser;
pub mod catalog;
pub mod json;
pub mod models;
pub mod order;
pub mod pattern;
pub mod service;
pub mod sorting;
pub mod tapetag;
pub mod text;
