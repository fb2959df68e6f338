//! Verified core of a terminal viewer for the Longman Dictionary of
//! Contemporary English (5th edition) data files: the constant database,
//! the IDM archive layout, the incremental search index, the XML content
//! transformer and the application state machine.

pub mod app;
pub mod audio;
pub mod bytes;
pub mod config;
pub mod content;
pub mod data;
pub mod filters;
pub mod history;
pub mod images;
pub mod keys;
pub mod indexer;
pub mod labels;
pub mod loader;
pub mod mouse;
pub mod search;
pub mod text;
pub mod view;
