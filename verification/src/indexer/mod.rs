//! Building the search indexes: the index items of a dictionary entry.

pub mod dom;
pub mod items;
pub mod names;
