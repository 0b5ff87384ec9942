//! The original character-budget chunking API, kept as thin adapters over
//! [`RecursiveChunker`] so that only one algorithm is maintained.
use vstd::prelude::*;
use super::engine::normalize;
use super::recursive::{
    config_ok, fingerprint_for, recursive_fingerprint, recursive_spans, chunks_are_spans, chunk_is_span,
    RecursiveChunker, RecursiveConfig,
};
use super::types::{BoundaryKind, Chunk, ChunkedDocument, SizeMetric};

verus! {

/// Character-budget chunker configuration.
#[derive(Debug, Clone, Copy, PartialEq, Eq)]
pub struct ChunkerConfig {
    pub max_chars: usize,
    pub min_chars: usize,
    pub overlap_chars: usize,
    pub strategy: ChunkingStrategy,
}

/// The only strategy of the legacy API: boundary-aware splitting.
#[derive(Debug, Clone, Copy, PartialEq, Eq)]
pub enum ChunkingStrategy {
    BoundaryAware,
}

impl ChunkerConfig {
    /// Simple max-character chunking: no minimum, no overlap.
    pub fn new(max_chars: usize) -> (c: Self)
        ensures
            c == (ChunkerConfig {
                max_chars,
                min_chars: 0,
                overlap_chars: 0,
                strategy: ChunkingStrategy::BoundaryAware,
            }),
    {
        ChunkerConfig { max_chars, min_chars: 0, overlap_chars: 0, strategy: ChunkingStrategy::BoundaryAware }
    }
}

/// The recursive configuration a legacy configuration stands for.
pub open spec fn as_recursive(cfg: ChunkerConfig) -> RecursiveConfig {
    RecursiveConfig {
        metric: SizeMetric::Chars,
        max_size: cfg.max_chars,
        min_size: cfg.min_chars,
        overlap: cfg.overlap_chars,
    }
}

pub fn to_recursive(cfg: &ChunkerConfig) -> (r: RecursiveConfig)
    ensures
        r == as_recursive(*cfg),
{
    RecursiveConfig {
        metric: SizeMetric::Chars,
        max_size: cfg.max_chars,
        min_size: cfg.min_chars,
        overlap: cfg.overlap_chars,
    }
}

/// Splits a document into chunks with the recursive chunker; a rejected
/// configuration yields no chunks.
pub fn chunk_document(text: &str, cfg: &ChunkerConfig) -> (d: ChunkedDocument)
    ensures
        config_ok(as_recursive(*cfg)) ==> chunks_are_spans(
            d.chunks@,
            normalize(text@),
            recursive_spans(text@, as_recursive(*cfg)),
        ),
        !config_ok(as_recursive(*cfg)) ==> d.chunks@.len() == 0,
        d.strategy_fingerprint@ == recursive_fingerprint(as_recursive(*cfg)),
{
    let rc = to_recursive(cfg);
    match RecursiveChunker::new(rc) {
        Ok(r) => {
            let chunks = r.chunk_raw(text);
            ChunkedDocument { chunks, strategy_fingerprint: fingerprint_for(rc) }
        },
        Err(_) => ChunkedDocument { chunks: Vec::new(), strategy_fingerprint: fingerprint_for(rc) },
    }
}

/// The texts of the chunks of [`chunk_document`], in order.
pub fn chunk_text(text: &str, cfg: ChunkerConfig) -> (v: Vec<String>)
    ensures
        config_ok(as_recursive(cfg)) ==> ({
            let s = recursive_spans(text@, as_recursive(cfg));
            &&& v@.len() == s.len()
            &&& forall|i: int| 0 <= i < v@.len() ==> #[trigger] v@[i]@ == normalize(text@).subrange(s[i].0, s[i].1)
        }),
        !config_ok(as_recursive(cfg)) ==> v@.len() == 0,
{
    let doc = chunk_document(text, &cfg);
    let ghost chunks = doc.chunks@;
    proof {
        reveal(chunks_are_spans);
    }
    let mut out: Vec<String> = Vec::new();
    let mut i: usize = 0;
    while i < doc.chunks.len()
        invariant
            i <= doc.chunks@.len(),
            out@.len() == i,
            forall|k: int| 0 <= k < i ==> #[trigger] out@[k]@ == doc.chunks@[k].text@,
        decreases doc.chunks@.len() - i,
    {
        out.push(doc.chunks[i].text.clone());
        i += 1;
    }
    proof {
        if config_ok(as_recursive(cfg)) {
            let s = recursive_spans(text@, as_recursive(cfg));
            assert forall|i: int| 0 <= i < out@.len() implies #[trigger] out@[i]@ == normalize(text@).subrange(s[i].0, s[i].1) by {
                assert(chunk_is_span(chunks[i], i, normalize(text@), s[i]));
            }
        }
    }
    out
}

} // verus!
