//! Sink-side identifiers and the Qdrant sink's endpoints and reply rules.
pub mod id;
pub mod qdrant;

pub use self::id::PointId;
