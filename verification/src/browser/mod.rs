//! Menu text and list ordering for the terminal browser.
pub mod import;
pub mod playlist;
pub mod prompt;
pub mod queue;
pub mod resolve;
pub mod search;
pub mod show;
pub mod style;
