//! Semantic text chunking for retrieval pipelines.
//!
//! The library splits raw text into sentences, builds an overlapping
//! context window around each sentence, hands the windows to an
//! embedding backend, and pairs each original sentence with the vector
//! computed from its window.

pub mod chunker;
pub mod document;
pub mod splitter;
pub mod window;
