//! Search layer: the incremental prefix-search index and the normalisation
//! of full-text tokens.

pub mod fulltext;
pub mod incremental;
pub mod lexicographic;
pub mod order;
pub mod ranking;
pub mod token;
