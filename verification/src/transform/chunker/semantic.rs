//! Errors of the semantic (similarity-based) chunking signals.
use vstd::prelude::*;
use crate::text::owned;

verus! {

/// Why a semantic signal could not be obtained.
#[derive(Debug, Clone, PartialEq, Eq)]
pub enum SemanticError {
    /// The signal provider failed; its message.
    Provider(String),
    /// Sentence segmentation found no sentence in a non-empty text.
    NoSentences,
    /// The configuration is invalid; why.
    InvalidConfig(String),
}

/// The rendering of a semantic error.
pub open spec fn semantic_error_message(e: SemanticError) -> Seq<char> {
    match e {
        SemanticError::Provider(m) => "signal provider failed: "@ + m@,
        SemanticError::NoSentences => "sentence segmentation produced zero sentences for non-empty input"@,
        SemanticError::InvalidConfig(m) => "config invalid: "@ + m@,
    }
}

impl SemanticError {
    /// Human-readable rendering of the error.
    pub fn message(&self) -> (m: String)
        ensures
            m@ == semantic_error_message(*self),
    {
        match self {
            SemanticError::Provider(d) => {
                let mut m = owned("signal provider failed: ");
                m.push_str(d.as_str());
                m
            },
            SemanticError::NoSentences => owned("sentence segmentation produced zero sentences for non-empty input"),
            SemanticError::InvalidConfig(d) => {
                let mut m = owned("config invalid: ");
                m.push_str(d.as_str());
                m
            },
        }
    }
}

} // verus!
