//! Document transforms (chunking).
pub mod chunker;
