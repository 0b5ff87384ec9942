//! The runner's configuration model and the decisions taken from it: the
//! embedding fingerprint, the collection vector size, and which chunker to
//! build.
use vstd::prelude::*;
use crate::error::{RagloomError, RagloomErrorKind};
use crate::text::{owned, str_eq};
use crate::transform::chunker::code::query::Lang;

verus! {

/// Embedding backend selection.
#[derive(Debug, Clone, Eq, PartialEq)]
pub enum EmbedBackend {
    OpenAi { endpoint: String, api_key: String, model: String },
    Http { url: String, model: String },
}

/// Runtime configuration of the runner.
#[derive(Debug, Clone, Eq, PartialEq)]
pub struct RunConfig {
    pub dir: String,
    pub embed_backend: EmbedBackend,
    pub qdrant_url: String,
    pub collection: String,
    pub state_path: String,
    pub create_collection_if_missing: bool,
    pub collection_vector_size: Option<usize>,
    pub chunker_strategy: String,
    pub size_metric: String,
    pub size_max: usize,
    pub size_min: usize,
    pub size_overlap: usize,
    pub tokenizer: String,
    pub chunker_mode: String,
    pub chunker_single: Option<String>,
    pub enable_semantic: bool,
    pub semantic_provider: String,
    pub semantic_percentile: u8,
}

/// Top-level command selected by argument parsing.
#[derive(Debug, Clone, Eq, PartialEq)]
pub enum ParsedCommand {
    Run(Box<RunConfig>),
    Help,
    Version,
}

/// The embedding fingerprint: backend name and model.
pub open spec fn embedding_fingerprint_spec(b: EmbedBackend) -> Seq<char> {
    match b {
        EmbedBackend::OpenAi { model, .. } => "openai:"@ + model@,
        EmbedBackend::Http { model, .. } => "http:"@ + model@,
    }
}

/// The fingerprint of the configured embedding backend and model.
pub fn embedding_fingerprint(cfg: &RunConfig) -> (s: String)
    ensures
        s@ == embedding_fingerprint_spec(cfg.embed_backend),
{
    match &cfg.embed_backend {
        EmbedBackend::OpenAi { model, .. } => {
            let mut s = owned("openai:");
            s.push_str(model.as_str());
            s
        },
        EmbedBackend::Http { model, .. } => {
            let mut s = owned("http:");
            s.push_str(model.as_str());
            s
        },
    }
}

/// The vector size of a known OpenAI embedding model.
pub open spec fn openai_model_size(model: Seq<char>) -> Option<usize> {
    if model == "text-embedding-3-small"@ {
        Some(1536)
    } else if model == "text-embedding-3-large"@ {
        Some(3072)
    } else if model == "text-embedding-ada-002"@ {
        Some(1536)
    } else {
        None
    }
}

/// The vector size of the collection to create: the configured one, else
/// the size of a known OpenAI model; otherwise a `Config` error.
pub fn resolve_collection_vector_size(cfg: &RunConfig) -> (r: Result<usize, RagloomError>)
    ensures
        cfg.collection_vector_size matches Some(n) ==> r == Ok::<usize, RagloomError>(n),
        cfg.collection_vector_size is None ==> match cfg.embed_backend {
            EmbedBackend::OpenAi { model, .. } => match openai_model_size(model@) {
                Some(n) => r == Ok::<usize, RagloomError>(n),
                None => (r matches Err(e) && e.kind == RagloomErrorKind::Config && e.contexts@.len() == 1
                    && e.contexts@[0]@ == "unknown OpenAI model for collection vector size: "@ + model@
                    + "; pass --collection-vector-size"@),
            },
            EmbedBackend::Http { .. } => (r matches Err(e) && e.kind == RagloomErrorKind::Config && e.contexts@.len() == 1
                && e.contexts@[0]@ == "http backend requires --collection-vector-size"@),
        },
{
    match cfg.collection_vector_size {
        Some(n) => return Ok(n),
        None => {},
    }
    match &cfg.embed_backend {
        EmbedBackend::OpenAi { model, .. } => {
            if str_eq(model.as_str(), "text-embedding-3-small") {
                Ok(1536)
            } else if str_eq(model.as_str(), "text-embedding-3-large") {
                Ok(3072)
            } else if str_eq(model.as_str(), "text-embedding-ada-002") {
                Ok(1536)
            } else {
                let mut m = owned("unknown OpenAI model for collection vector size: ");
                m.push_str(model.as_str());
                m.push_str("; pass --collection-vector-size");
                Err(RagloomError::from_kind(RagloomErrorKind::Config).with_context(m))
            }
        },
        EmbedBackend::Http { .. } => Err(RagloomError::from_kind(RagloomErrorKind::Config).with_context(owned(
            "http backend requires --collection-vector-size",
        ))),
    }
}

/// The language named `s` (its fingerprint name).
pub open spec fn lang_named(s: Seq<char>) -> Option<Lang> {
    if s == "rust"@ { Some(Lang::Rust) }
    else if s == "python"@ { Some(Lang::Python) }
    else if s == "javascript"@ { Some(Lang::JavaScript) }
    else if s == "typescript"@ { Some(Lang::TypeScript) }
    else if s == "tsx"@ { Some(Lang::Tsx) }
    else if s == "go"@ { Some(Lang::Go) }
    else if s == "java"@ { Some(Lang::Java) }
    else if s == "c"@ { Some(Lang::C) }
    else if s == "cpp"@ { Some(Lang::Cpp) }
    else if s == "ruby"@ { Some(Lang::Ruby) }
    else if s == "bash"@ { Some(Lang::Bash) }
    else { None }
}

/// The language named `s`; an unknown name is an `InvalidInput` error.
pub fn parse_code_lang(s: &str) -> (r: Result<Lang, RagloomError>)
    ensures
        lang_named(s@) matches Some(l) ==> r == Ok::<Lang, RagloomError>(l),
        lang_named(s@) is None ==> (r matches Err(e) && e.kind == RagloomErrorKind::InvalidInput && e.contexts@.len() == 1
            && e.contexts@[0]@ == "unsupported language: "@ + s@),
{
    if str_eq(s, "rust") { Ok(Lang::Rust) }
    else if str_eq(s, "python") { Ok(Lang::Python) }
    else if str_eq(s, "javascript") { Ok(Lang::JavaScript) }
    else if str_eq(s, "typescript") { Ok(Lang::TypeScript) }
    else if str_eq(s, "tsx") { Ok(Lang::Tsx) }
    else if str_eq(s, "go") { Ok(Lang::Go) }
    else if str_eq(s, "java") { Ok(Lang::Java) }
    else if str_eq(s, "c") { Ok(Lang::C) }
    else if str_eq(s, "cpp") { Ok(Lang::Cpp) }
    else if str_eq(s, "ruby") { Ok(Lang::Ruby) }
    else if str_eq(s, "bash") { Ok(Lang::Bash) }
    else {
        let mut m = owned("unsupported language: ");
        m.push_str(s);
        Err(RagloomError::from_kind(RagloomErrorKind::InvalidInput).with_context(m))
    }
}

/// Which chunker the runner builds.
#[derive(Debug, Clone, PartialEq, Eq)]
pub enum ChunkerChoice {
    /// The semantic router, with signals from the named provider.
    SemanticRouter { provider: String },
    /// The production router.
    Router,
    SingleSemantic,
    SingleRecursive,
    SingleMarkdown,
    SingleCode(Lang),
}

/// The configuration has the shape that argument parsing guarantees.
pub open spec fn run_config_validated(cfg: RunConfig) -> bool {
    &&& (cfg.size_metric@ == "chars"@ || cfg.size_metric@ == "tokens"@)
    &&& (cfg.chunker_mode@ == "router"@ || cfg.chunker_mode@ == "single"@)
    &&& (cfg.chunker_mode@ == "single"@ ==> cfg.chunker_single is Some)
}

/// The size budget of the configuration.
pub fn recursive_config_of(cfg: &RunConfig) -> (r: crate::transform::chunker::recursive::RecursiveConfig)
    requires
        run_config_validated(*cfg),
    ensures
        r.metric == (if cfg.size_metric@ == "chars"@ {
            crate::transform::chunker::types::SizeMetric::Chars
        } else {
            crate::transform::chunker::types::SizeMetric::Tokens
        }),
        r.max_size == cfg.size_max,
        r.min_size == cfg.size_min,
        r.overlap == cfg.size_overlap,
{
    let metric = if str_eq(cfg.size_metric.as_str(), "chars") {
        crate::transform::chunker::types::SizeMetric::Chars
    } else {
        crate::transform::chunker::types::SizeMetric::Tokens
    };
    crate::transform::chunker::recursive::RecursiveConfig {
        metric,
        max_size: cfg.size_max,
        min_size: cfg.size_min,
        overlap: cfg.size_overlap,
    }
}

/// The chunker choice of a single-chunker configuration naming `kind`.
pub open spec fn single_choice(kind: Seq<char>) -> Option<ChunkerChoice> {
    if kind == "semantic"@ {
        Some(ChunkerChoice::SingleSemantic)
    } else if kind == "recursive"@ {
        Some(ChunkerChoice::SingleRecursive)
    } else if kind == "markdown"@ {
        Some(ChunkerChoice::SingleMarkdown)
    } else if kind.len() >= 5 && kind.take(5) == "code:"@ && lang_named(kind.skip(5)) is Some {
        Some(ChunkerChoice::SingleCode(lang_named(kind.skip(5))->Some_0))
    } else {
        None
    }
}

/// The explanation for a single-chunker kind that names no chunker: an
/// unknown language after `code:`, or an unknown kind.
pub open spec fn single_choice_error(kind: Seq<char>) -> Seq<char> {
    if kind.len() >= 5 && kind.take(5) == "code:"@ {
        "unsupported language: "@ + kind.skip(5)
    } else {
        "invalid --chunker-single: "@ + kind
    }
}

/// Decides which chunker to build: an unsupported tokenizer is a `Config`
/// error; the semantic router needs the `adapter` signal provider; a single
/// chunker must be one of the known kinds.
pub fn choose_chunker(cfg: &RunConfig) -> (r: Result<ChunkerChoice, RagloomError>)
    requires
        run_config_validated(*cfg),
    ensures
        cfg.tokenizer@ != "tiktoken-cl100k"@ ==> (r matches Err(e) && e.kind == RagloomErrorKind::Config
            && e.contexts@.len() == 1 && e.contexts@[0]@ == "unsupported --tokenizer: "@ + cfg.tokenizer@
            + " (phase 1 supports only: tiktoken-cl100k)"@),
        cfg.tokenizer@ == "tiktoken-cl100k"@ && cfg.chunker_mode@ == "router"@ && cfg.enable_semantic ==> (
            if cfg.semantic_provider@ == "adapter"@ {
                r matches Ok(ChunkerChoice::SemanticRouter { provider }) && provider@ == "adapter"@
            } else {
                r matches Err(e) && e.kind == RagloomErrorKind::InvalidInput && e.contexts@.len() == 1
                    && e.contexts@[0]@ == "unsupported --semantic-provider: "@ + cfg.semantic_provider@
            }),
        cfg.tokenizer@ == "tiktoken-cl100k"@ && cfg.chunker_mode@ == "router"@ && !cfg.enable_semantic ==> r
            == Ok::<ChunkerChoice, RagloomError>(ChunkerChoice::Router),
        cfg.tokenizer@ == "tiktoken-cl100k"@ && cfg.chunker_mode@ == "single"@ ==> match single_choice(cfg.chunker_single->Some_0@) {
            Some(c) => r == Ok::<ChunkerChoice, RagloomError>(c),
            None => r matches Err(e) && e.kind == RagloomErrorKind::InvalidInput && e.contexts@.len() == 1
                && e.contexts@[0]@ == single_choice_error(cfg.chunker_single->Some_0@),
        },
{
    if !str_eq(cfg.tokenizer.as_str(), "tiktoken-cl100k") {
        let mut m = owned("unsupported --tokenizer: ");
        m.push_str(cfg.tokenizer.as_str());
        m.push_str(" (phase 1 supports only: tiktoken-cl100k)");
        return Err(RagloomError::from_kind(RagloomErrorKind::Config).with_context(m));
    }
    let router = str_eq(cfg.chunker_mode.as_str(), "router");
    proof {
        reveal_strlit("router");
        reveal_strlit("single");
        assert("router"@[0] != "single"@[0]);
    }
    if router && cfg.enable_semantic {
        if str_eq(cfg.semantic_provider.as_str(), "adapter") {
            return Ok(ChunkerChoice::SemanticRouter { provider: owned("adapter") });
        }
        let mut m = owned("unsupported --semantic-provider: ");
        m.push_str(cfg.semantic_provider.as_str());
        return Err(RagloomError::from_kind(RagloomErrorKind::InvalidInput).with_context(m));
    }
    if router {
        return Ok(ChunkerChoice::Router);
    }
    let kind = match &cfg.chunker_single {
        Some(k) => k,
        None => {
            return Err(RagloomError::from_kind(RagloomErrorKind::InvalidInput).with_context(owned("missing --chunker-single")));
        },
    };
    if str_eq(kind.as_str(), "semantic") {
        return Ok(ChunkerChoice::SingleSemantic);
    }
    if str_eq(kind.as_str(), "recursive") {
        return Ok(ChunkerChoice::SingleRecursive);
    }
    if str_eq(kind.as_str(), "markdown") {
        return Ok(ChunkerChoice::SingleMarkdown);
    }
    let chars = crate::text::chars_of(kind.as_str());
    if chars.len() >= 5 && chars[0] == 'c' && chars[1] == 'o' && chars[2] == 'd' && chars[3] == 'e' && chars[4] == ':' {
        let rest = crate::text::string_from_range(&chars, 5, chars.len());
        proof {
            reveal_strlit("code:");
            assert(kind@.take(5) =~= "code:"@);
            assert(chars@.subrange(5, chars@.len() as int) =~= kind@.skip(5));
        }
        return match parse_code_lang(rest.as_str()) {
            Ok(lang) => Ok(ChunkerChoice::SingleCode(lang)),
            Err(e) => Err(e),
        };
    }
    proof {
        reveal_strlit("code:");
        if kind@.len() >= 5 && kind@.take(5) == "code:"@ {
            assert(kind@.take(5)[0] == 'c');
            assert(kind@.take(5)[1] == 'o');
            assert(kind@.take(5)[2] == 'd');
            assert(kind@.take(5)[3] == 'e');
            assert(kind@.take(5)[4] == ':');
        }
    }
    let mut m = owned("invalid --chunker-single: ");
    m.push_str(kind.as_str());
    Err(RagloomError::from_kind(RagloomErrorKind::InvalidInput).with_context(m))
}

} // verus!
