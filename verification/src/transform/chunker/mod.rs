//! Text chunking: pluggable chunkers that split a document into indexable
//! chunks and stamp the result with the strategy fingerprint used.
pub mod engine;
pub mod types;
pub mod recursive;
pub mod legacy;
pub mod slabs;
pub mod markdown;
pub mod code;
pub mod router;
pub mod semantic;

use vstd::prelude::*;
use self::recursive::RecursiveConfig;
use self::types::{ChunkError, ChunkHint, ChunkedDocument, SizeMetric};

verus! {

/// A chunking strategy.
///
/// Every implementation stamps the returned document with the fingerprint of
/// the strategy that actually produced the chunks.
pub trait Chunker: Send + Sync {
    /// What this chunker promises of its answer `r` for `text` and `hint`;
    /// nothing, unless the implementation says more and proves it.
    open spec fn chunk_outcome(&self, text: Seq<char>, hint: ChunkHint, r: Result<ChunkedDocument, ChunkError>) -> bool {
        true
    }

    fn chunk(&self, text: &str, hint: &ChunkHint) -> (r: Result<ChunkedDocument, ChunkError>)
        ensures
            self.chunk_outcome(text@, *hint, r),
    ;
}

/// The default recursive configuration: character metric, a 512-character
/// budget, no overlap and no minimum size.
pub fn recursive_config_chars_512() -> (cfg: RecursiveConfig)
    ensures
        cfg == (RecursiveConfig { metric: SizeMetric::Chars, max_size: 512, min_size: 0, overlap: 0 }),
{
    RecursiveConfig { metric: SizeMetric::Chars, max_size: 512, min_size: 0, overlap: 0 }
}

} // verus!
