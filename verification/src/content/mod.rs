//! Content layer: content types and addresses.

pub mod entry;
pub mod page;
pub mod render;
pub mod transform;
pub mod style;
pub mod types;
pub mod xml;
