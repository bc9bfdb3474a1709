//! Website change tracking: the rules that decide what a page check
//! extracts and records, the order in which watches are listed, and the
//! state of the watch list screen.
pub mod app;
pub mod checker;
pub mod display;
pub mod listing;
pub mod models;
pub mod text;
