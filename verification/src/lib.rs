//! Incrementally maintained dataflow over a transactional key-value store,
//! and the note-indexing logic of a markdown vault built on it.

pub mod pipeline;
pub mod text;
pub mod tags;
pub mod paths;
pub mod store;
pub mod names;
pub mod stream;
pub mod notes;
pub mod index;
pub mod frontmatter;
