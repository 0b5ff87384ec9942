//! Pipeline decisions: planning work, accounting ingest progress, laying out
//! the points written to the sink, and the running pipeline's choices.
pub mod planner;
pub mod summary;
pub mod points;
pub mod runtime;
