//! Crate-level error type.
//!
//! Every fallible operation reports a coarse [`RagloomErrorKind`] that the
//! runtime uses for retry classification, plus a stack of human-readable
//! context lines (innermost first).
use vstd::prelude::*;

verus! {

/// Coarse classification of a failure.
#[derive(Debug, Clone, Copy, PartialEq, Eq, Hash)]
pub enum RagloomErrorKind {
    InvalidInput,
    Io,
    Config,
    Internal,
    Embed,
    Sink,
    State,
}

/// The label of a kind.
pub open spec fn kind_label(k: RagloomErrorKind) -> Seq<char> {
    match k {
        RagloomErrorKind::InvalidInput => "invalid_input"@,
        RagloomErrorKind::Io => "io"@,
        RagloomErrorKind::Config => "config"@,
        RagloomErrorKind::Internal => "internal"@,
        RagloomErrorKind::Embed => "embed"@,
        RagloomErrorKind::Sink => "sink"@,
        RagloomErrorKind::State => "state"@,
    }
}

impl RagloomErrorKind {
    /// Stable lowercase label of the kind, as used in structured logs.
    pub fn label(&self) -> (s: &'static str)
        ensures
            s@ == kind_label(*self),
    {
        match self {
            RagloomErrorKind::InvalidInput => "invalid_input",
            RagloomErrorKind::Io => "io",
            RagloomErrorKind::Config => "config",
            RagloomErrorKind::Internal => "internal",
            RagloomErrorKind::Embed => "embed",
            RagloomErrorKind::Sink => "sink",
            RagloomErrorKind::State => "state",
        }
    }
}

/// An error with a kind and a stack of context lines.
///
/// `contexts[0]` is the innermost (first attached) context; later entries were
/// attached by callers further up the stack.
#[derive(Debug, Clone)]
pub struct RagloomError {
    pub kind: RagloomErrorKind,
    pub contexts: Vec<String>,
}

/// The first `k` context lines rendered outermost first, each after ": ".
pub open spec fn contexts_text(cs: Seq<String>, k: int) -> Seq<char>
    decreases k,
{
    if k <= 0 || k > cs.len() {
        Seq::empty()
    } else {
        ": "@ + cs[k - 1]@ + contexts_text(cs, k - 1)
    }
}

/// The rendering of an error: its kind label, then its context lines from
/// the outermost to the innermost, each after ": ".
pub open spec fn error_message(e: RagloomError) -> Seq<char> {
    kind_label(e.kind) + contexts_text(e.contexts@, e.contexts@.len() as int)
}

impl RagloomError {
    /// An error of the given kind without any context yet.
    pub fn from_kind(kind: RagloomErrorKind) -> (e: Self)
        ensures
            e.kind == kind,
            e.contexts@.len() == 0,
    {
        RagloomError { kind, contexts: Vec::new() }
    }

    /// An error of the given kind whose underlying cause is described by `cause`.
    pub fn new(kind: RagloomErrorKind, cause: String) -> (e: Self)
        ensures
            e.kind == kind,
            e.contexts@.len() == 1,
            e.contexts@[0] == cause,
    {
        let mut contexts = Vec::new();
        contexts.push(cause);
        RagloomError { kind, contexts }
    }

    /// Attaches one more (outer) context line; the kind is unchanged.
    pub fn with_context(self, context: String) -> (e: Self)
        ensures
            e.kind == self.kind,
            e.contexts@ == self.contexts@.push(context),
    {
        let mut contexts = self.contexts;
        contexts.push(context);
        RagloomError { kind: self.kind, contexts }
    }

    /// The outermost context line, if any.
    pub fn outer_context(&self) -> (s: Option<&String>)
        ensures
            self.contexts@.len() == 0 ==> s is None,
            self.contexts@.len() > 0 ==> s == Some(&self.contexts@.last()),
    {
        if self.contexts.len() == 0 {
            None
        } else {
            Some(&self.contexts[self.contexts.len() - 1])
        }
    }

    /// The error rendered as one line (see [`error_message`]).
    pub fn message(&self) -> (s: String)
        ensures
            s@ == error_message(*self),
    {
        let mut s = String::new();
        s.push_str(self.kind.label());
        let n = self.contexts.len();
        let mut i = n;
        proof {
            assert(Seq::<char>::empty() + kind_label(self.kind) == kind_label(self.kind));
            assert(s@ == kind_label(self.kind));
        }
        while i > 0
            invariant
                i <= n == self.contexts@.len(),
                s@ + contexts_text(self.contexts@, i as int) == error_message(*self),
            decreases i,
        {
            let ghost before = s@;
            s.push_str(": ");
            s.push_str(self.contexts[i - 1].as_str());
            proof {
                let cs = self.contexts@;
                assert(contexts_text(cs, i as int) == ": "@ + cs[i - 1]@ + contexts_text(cs, i - 1));
                assert(s@ + contexts_text(cs, i - 1) =~= before + contexts_text(cs, i as int));
            }
            i -= 1;
        }
        proof {
            assert(s@ + contexts_text(self.contexts@, 0) =~= s@);
        }
        s
    }
}

} // verus!
