//! Ragloom: a small, inspectable ingestion library for RAG pipelines.
//!
//! The library holds the deterministic logic of the pipeline: command-line
//! parsing and configuration, chunking strategies, identifiers and point
//! layout, the durable state model (WAL and failed-work journal) and the
//! framing of its files, planning and progress accounting, change
//! detection, and the rules by which replies of the sink are judged.
pub mod args;
pub mod cli;
pub mod config;
pub mod doc;
pub mod embed;
pub mod error;
pub mod ids;
pub mod observability;
pub mod pipeline;
pub mod sink;
pub mod source;
pub mod state;
pub mod text;
pub mod transform;
pub mod xtask;

pub use crate::error::{RagloomError, RagloomErrorKind};
