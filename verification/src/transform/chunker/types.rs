//! Public chunk types, the chunker error, the strategy fingerprint and the
//! size metric.
use vstd::prelude::*;
use crate::text::{decimal, push_usize};
use crate::pipeline::points::{file_extension, file_extension_from_canonical_path};

verus! {

/// Strength of the boundary at which a chunk ends.
#[derive(Debug, Clone, Copy, PartialEq, Eq, Hash, Structural)]
pub enum BoundaryKind {
    Paragraph,
    Line,
    Whitespace,
    Forced,
}

/// One indexable piece of a document.
///
/// `start_byte`/`end_byte` are UTF-8 byte offsets into the (newline
/// normalized) text the chunker worked on; `char_len` is the number of
/// characters of `text`.
#[derive(Debug, Clone, PartialEq, Eq)]
pub struct Chunk {
    pub index: usize,
    pub text: String,
    pub boundary: BoundaryKind,
    pub start_byte: usize,
    pub end_byte: usize,
    pub char_len: usize,
}

/// Identity of a chunking strategy and all of its parameters.
///
/// It is mixed into point identifiers, so any change of strategy or parameter
/// opens a new identifier space.
#[derive(Debug, Clone, PartialEq, Eq)]
pub struct StrategyFingerprint {
    value: String,
}

impl View for StrategyFingerprint {
    type V = Seq<char>;

    closed spec fn view(&self) -> Seq<char> {
        self.value@
    }
}

impl StrategyFingerprint {
    pub fn new(value: String) -> (f: Self)
        ensures
            f@ == value@,
    {
        StrategyFingerprint { value }
    }

    pub fn as_str(&self) -> (s: &str)
        ensures
            s@ == self@,
    {
        self.value.as_str()
    }

    /// A copy carrying the same fingerprint.
    pub fn duplicate(&self) -> (f: Self)
        ensures
            f@ == self@,
    {
        StrategyFingerprint { value: self.value.clone() }
    }
}

/// The chunks of one document and the fingerprint of the strategy that
/// produced them.
#[derive(Debug, Clone, PartialEq, Eq)]
pub struct ChunkedDocument {
    pub chunks: Vec<Chunk>,
    pub strategy_fingerprint: StrategyFingerprint,
}

/// Errors raised while building or running a chunker.
#[derive(Debug, Clone, PartialEq, Eq)]
pub enum ChunkError {
    InvalidConfig(String),
    Tokenizer(String),
    ParseError { lang: String, pos: usize, detail: String },
}

/// Unit in which chunk sizes are measured.
#[derive(Debug, Clone, Copy, PartialEq, Eq, Structural)]
pub enum SizeMetric {
    Chars,
    Tokens,
}

/// Routing information about the document being chunked.
#[derive(Debug, Clone, PartialEq, Eq)]
pub struct ChunkHint {
    /// File extension of the document, without the dot, as written.
    pub extension: Option<String>,
}

impl ChunkHint {
    /// A hint that carries no routing information.
    pub fn none() -> (h: Self)
        ensures
            h.extension is None,
    {
        ChunkHint { extension: None }
    }

    /// The hint for a document at `path`: the text after the last `.` of
    /// its file name, when there is such a non-empty text.
    pub fn from_path(path: &str) -> (h: Self)
        ensures
            file_extension(path@).len() == 0 ==> h.extension is None,
            file_extension(path@).len() > 0 ==> (h.extension matches Some(e) && e@ == file_extension(path@)),
    {
        let e = file_extension_from_canonical_path(path);
        if e.as_str().is_empty() {
            ChunkHint { extension: None }
        } else {
            ChunkHint { extension: Some(e) }
        }
    }
}

impl ChunkError {
    /// Human-readable rendering of the error.
    pub fn message(&self) -> (m: String)
        ensures
            m@ == chunk_error_message(*self),
    {
        let mut m = String::new();
        match self {
            ChunkError::InvalidConfig(d) => {
                m.push_str("invalid chunker config: ");
                m.push_str(d.as_str());
            },
            ChunkError::Tokenizer(d) => {
                m.push_str("tokenizer init failed: ");
                m.push_str(d.as_str());
            },
            ChunkError::ParseError { lang, pos, detail } => {
                m.push_str("parse error in ");
                m.push_str(lang.as_str());
                m.push_str(" at byte ");
                push_usize(&mut m, *pos);
                m.push_str(": ");
                m.push_str(detail.as_str());
            },
        }
        proof {
            let e = Seq::<char>::empty();
            assert(e + "invalid chunker config: "@ =~= "invalid chunker config: "@);
            assert(e + "tokenizer init failed: "@ =~= "tokenizer init failed: "@);
            assert(e + "parse error in "@ =~= "parse error in "@);
        }
        m
    }
}

/// The rendering of a chunker error.
pub open spec fn chunk_error_message(e: ChunkError) -> Seq<char> {
    match e {
        ChunkError::InvalidConfig(d) => "invalid chunker config: "@ + d@,
        ChunkError::Tokenizer(d) => "tokenizer init failed: "@ + d@,
        ChunkError::ParseError { lang, pos, detail } => "parse error in "@ + lang@ + " at byte "@
            + decimal(pos as nat) + ": "@ + detail@,
    }
}

} // verus!
