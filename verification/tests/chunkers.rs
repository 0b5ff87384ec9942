use ragloom::transform::chunker::code::query::Lang;
use ragloom::transform::chunker::code::CodeChunker;
use ragloom::transform::chunker::legacy::{chunk_document, chunk_text, ChunkerConfig, ChunkingStrategy};
use ragloom::transform::chunker::markdown::MarkdownChunker;
use ragloom::transform::chunker::recursive::{RecursiveChunker, RecursiveConfig};
use ragloom::transform::chunker::router::{default_router, semantic_router, BuiltinChunker, ChunkerRouter};
use ragloom::transform::chunker::types::{
    BoundaryKind, Chunk, ChunkError, ChunkHint, ChunkedDocument, SizeMetric, StrategyFingerprint,
};
use ragloom::transform::chunker::Chunker;
use ragloom::transform::chunker::semantic::SemanticError;

fn chars_cfg(max: usize) -> RecursiveConfig {
    RecursiveConfig { metric: SizeMetric::Chars, max_size: max, min_size: 0, overlap: 0 }
}

fn texts(doc: &ChunkedDocument) -> Vec<&str> {
    doc.chunks.iter().map(|c| c.text.as_str()).collect()
}

// ----- recursive -----

#[test]
fn recursive_empty_input_produces_no_chunks() {
    let c = RecursiveChunker::new(chars_cfg(10)).unwrap();
    assert!(c.chunk("", &ChunkHint::none()).unwrap().chunks.is_empty());
}

#[test]
fn recursive_zero_budget_produces_no_chunks() {
    let c = RecursiveChunker::new(chars_cfg(0)).unwrap();
    assert!(c.chunk("hello", &ChunkHint::none()).unwrap().chunks.is_empty());
}

#[test]
fn fixed_size_split_for_ascii() {
    let c = RecursiveChunker::new(chars_cfg(4)).unwrap();
    let doc = c.chunk("abcdefghij", &ChunkHint::none()).unwrap();
    assert_eq!(texts(&doc), vec!["abcd", "efgh", "ij"]);
}

#[test]
fn recursive_multibyte_unicode_does_not_panic() {
    let c = RecursiveChunker::new(chars_cfg(3)).unwrap();
    let doc = c.chunk("你好世界🙂hello", &ChunkHint::none()).unwrap();
    assert!(!doc.chunks.is_empty());
    for ch in &doc.chunks {
        assert!(!ch.text.is_empty());
        assert!(ch.text.is_char_boundary(0));
    }
}

#[test]
fn boundary_preference_prefers_paragraph_over_line() {
    let cfg = RecursiveConfig { max_size: 8, min_size: 0, overlap: 0, metric: SizeMetric::Chars };
    let c = RecursiveChunker::new(cfg).unwrap();
    let doc = c.chunk("aaaa\n\nbbbb cccc\ndddd", &ChunkHint::none()).unwrap();
    assert!(doc.chunks.len() >= 2);
    assert_eq!(doc.chunks[0].text, "aaaa");
    assert_eq!(doc.chunks[0].boundary, BoundaryKind::Paragraph);
}

#[test]
fn overlap_retreats_cursor() {
    let cfg = RecursiveConfig { max_size: 5, min_size: 0, overlap: 2, metric: SizeMetric::Chars };
    let c = RecursiveChunker::new(cfg).unwrap();
    let doc = c.chunk("abcdefghij", &ChunkHint::none()).unwrap();
    assert_eq!(texts(&doc), vec!["abcde", "defgh", "ghij"]);
}

#[test]
fn fingerprint_is_stable_and_contains_parameters() {
    let c = RecursiveChunker::new(chars_cfg(123)).unwrap();
    let fp = c.strategy_fingerprint().as_str();
    assert!(fp.starts_with("recursive:v1|metric=chars"));
    assert!(fp.contains("max=123"));
}

#[test]
fn invalid_config_is_rejected() {
    let bad = RecursiveConfig { metric: SizeMetric::Chars, max_size: 10, min_size: 11, overlap: 0 };
    assert!(RecursiveChunker::new(bad).is_err());
    let bad2 = RecursiveConfig { metric: SizeMetric::Chars, max_size: 10, min_size: 0, overlap: 10 };
    assert!(RecursiveChunker::new(bad2).is_err());
}

#[test]
fn recursive_fingerprint_lists_every_parameter() {
    let cfg = RecursiveConfig { metric: SizeMetric::Chars, max_size: 50, min_size: 5, overlap: 3 };
    let c = RecursiveChunker::new(cfg).unwrap();
    assert_eq!(c.strategy_fingerprint().as_str(), "recursive:v1|metric=chars|tokenizer=chars|max=50|min=5|overlap=3");
    let doc = c.chunk("x", &ChunkHint::none()).unwrap();
    assert_eq!(doc.strategy_fingerprint.as_str(), c.strategy_fingerprint().as_str());
}

#[test]
fn recursive_chunks_cover_the_text_in_order() {
    let c = RecursiveChunker::new(chars_cfg(6)).unwrap();
    let text = "one two\nthree four five\n\nsix";
    let doc = c.chunk(text, &ChunkHint::none()).unwrap();
    for (i, ch) in doc.chunks.iter().enumerate() {
        assert_eq!(ch.index, i);
        assert!(ch.char_len <= 6);
        assert_eq!(ch.char_len, ch.text.chars().count());
        assert_eq!(&text[ch.start_byte..ch.end_byte], ch.text);
    }
    let joined: String = doc.chunks.iter().map(|c| c.text.as_str()).collect();
    let squeezed: String = text.chars().filter(|c| !c.is_whitespace()).collect();
    let joined_squeezed: String = joined.chars().filter(|c| !c.is_whitespace()).collect();
    assert_eq!(joined_squeezed, squeezed);
}

#[test]
fn invalid_config_reports_why() {
    let bad = RecursiveConfig { metric: SizeMetric::Chars, max_size: 10, min_size: 0, overlap: 10 };
    match RecursiveChunker::new(bad) {
        Err(e @ ChunkError::InvalidConfig(_)) => assert!(e.message().starts_with("invalid chunker config: ")),
        other => panic!("unexpected: {:?}", other.map(|_| ())),
    }
}

#[test]
fn token_metric_is_refused_without_a_tokenizer() {
    let cfg = RecursiveConfig { metric: SizeMetric::Tokens, max_size: 10, min_size: 0, overlap: 0 };
    assert!(matches!(RecursiveChunker::new(cfg), Err(ChunkError::Tokenizer(_))));
}

// ----- legacy -----

#[test]
fn legacy_empty_input_produces_no_chunks() {
    assert!(chunk_text("", ChunkerConfig::new(10)).is_empty());
}

#[test]
fn legacy_zero_budget_produces_no_chunks() {
    assert!(chunk_text("hello", ChunkerConfig::new(0)).is_empty());
}

#[test]
fn splits_into_fixed_size_chunks() {
    let chunks = chunk_text("abcdefghij", ChunkerConfig::new(4));
    assert_eq!(chunks, vec!["abcd", "efgh", "ij"]);
}

#[test]
fn legacy_multibyte_unicode_does_not_panic() {
    let chunks = chunk_text("你好世界🙂hello", ChunkerConfig::new(3));
    assert!(!chunks.is_empty());
    for c in &chunks {
        assert!(!c.is_empty());
    }
}

#[test]
fn boundary_preference_prefers_paragraph_break() {
    let cfg = ChunkerConfig { max_chars: 8, min_chars: 0, overlap_chars: 0, strategy: ChunkingStrategy::BoundaryAware };
    let doc = chunk_document("aaaa\n\nbbbb cccc\ndddd", &cfg);
    assert!(doc.chunks.len() >= 2);
    assert_eq!(doc.chunks[0].text, "aaaa");
}

#[test]
fn overlap_moves_next_start_backward() {
    let cfg = ChunkerConfig { max_chars: 5, min_chars: 0, overlap_chars: 2, strategy: ChunkingStrategy::BoundaryAware };
    let texts: Vec<String> = chunk_text("abcdefghij", cfg);
    assert_eq!(texts, vec!["abcde", "defgh", "ghij"]);
}

#[test]
fn legacy_document_carries_recursive_fingerprint() {
    let doc = chunk_document("abc", &ChunkerConfig::new(10));
    assert_eq!(doc.strategy_fingerprint.as_str(), "recursive:v1|metric=chars|tokenizer=chars|max=10|min=0|overlap=0");
    assert_eq!(texts(&doc), vec!["abc"]);
}

// ----- markdown -----

fn md(max: usize) -> MarkdownChunker {
    MarkdownChunker::new(chars_cfg(max)).unwrap()
}

#[test]
fn markdown_empty_input_produces_no_chunks() {
    let doc = md(100).chunk("", &ChunkHint::none()).unwrap();
    assert!(doc.chunks.is_empty());
    assert!(doc.strategy_fingerprint.as_str().starts_with("markdown:v1"));
}

#[test]
fn heading_creates_boundary() {
    let text = "# One\n\nAlpha.\n\n# Two\n\nBeta.\n";
    let doc = md(1000).chunk(text, &ChunkHint::none()).unwrap();
    assert!(doc.chunks.len() >= 2, "got chunks: {:?}", doc.chunks);
    assert!(doc.chunks.iter().any(|c| c.text.contains("Alpha.")));
    assert!(doc.chunks.iter().any(|c| c.text.contains("Beta.")));
}

#[test]
fn code_block_stays_intact_when_it_fits_budget() {
    let text = "# T\n\n```rust\nfn main() { println!(\"hi\"); }\n```\n\nAfter.\n";
    let doc = md(1000).chunk(text, &ChunkHint::none()).unwrap();
    let has_fence = doc.chunks.iter().any(|c| c.text.contains("```rust") && c.text.contains("fn main"));
    assert!(has_fence, "code block should be in a single chunk: {:?}", doc.chunks);
}

#[test]
fn fingerprint_encodes_parameters() {
    let fp = md(777).chunk("# x\n", &ChunkHint::none()).unwrap().strategy_fingerprint;
    assert_eq!(fp.as_str(), "markdown:v1|metric=chars|max=777|min=0|overlap=0");
}

#[test]
fn markdown_boundaries_are_sorted_and_distinct() {
    let text = "# One\n\nAlpha.\n\n## Two\n\n- a\n- b\n\nBeta.\n";
    let bs = md(1000).collect_boundaries(text);
    assert!(bs.windows(2).all(|w| w[0] < w[1]), "{:?}", bs);
    assert!(bs.iter().all(|&b| b <= text.len()));
    assert!(bs.contains(&text.find("## Two").unwrap()));
}

// ----- code -----

fn code(lang: Lang, max: usize) -> CodeChunker {
    CodeChunker::new(lang, chars_cfg(max)).unwrap()
}

#[test]
fn mod_empty_input_produces_no_chunks() {
    let c = code(Lang::Rust, 100);
    let doc = c.chunk("", &ChunkHint::none()).unwrap();
    assert!(doc.chunks.is_empty());
    assert!(doc.strategy_fingerprint.as_str().starts_with("code:v1"));
}

#[test]
fn rust_two_functions_produce_at_least_two_chunks() {
    let text = "fn a() { 1; }\n\nfn b() { 2; }\n";
    let c = code(Lang::Rust, 1000);
    let doc = c.chunk(text, &ChunkHint::none()).unwrap();
    assert!(doc.chunks.len() >= 2, "chunks: {:?}", doc.chunks);
}

#[test]
fn fingerprint_contains_language_and_grammar() {
    let c = code(Lang::Rust, 1000);
    let fp = c.chunk("fn main(){}", &ChunkHint::none()).unwrap().strategy_fingerprint;
    assert!(fp.as_str().contains("lang=rust"));
    assert!(fp.as_str().contains("grammar=tree-sitter-rust@"));
}

#[test]
fn bash_function_parses() {
    let text = "greet() { echo hi; }\n";
    let c = code(Lang::Bash, 1000);
    let doc = c.chunk(text, &ChunkHint::none()).unwrap();
    assert!(!doc.chunks.is_empty());
}

#[test]
fn python_definitions_are_split_apart() {
    let text = "def a():\n    return 1\n\n\ndef b():\n    return 2\n";
    let c = code(Lang::Python, 1000);
    let doc = c.chunk(text, &ChunkHint::none()).unwrap();
    assert!(doc.chunks.len() >= 2, "chunks: {:?}", doc.chunks);
    assert!(doc.chunks.iter().any(|ch| ch.text.contains("def a")));
    assert!(doc.chunks.iter().any(|ch| ch.text.contains("def b")));
    for (i, ch) in doc.chunks.iter().enumerate() {
        assert_eq!(ch.index, i);
    }
}

// ----- router -----

fn router_cfg() -> RecursiveConfig {
    chars_cfg(1000)
}

#[test]
fn unknown_extension_falls_back_to_default() {
    let router = default_router(router_cfg()).unwrap();
    let hint = ChunkHint::from_path("/tmp/notes.txt");
    let doc = router.chunk("hello world", &hint).unwrap();
    assert!(doc.strategy_fingerprint.as_str().starts_with("recursive:v1"));
}

#[test]
fn markdown_extension_routes_to_markdown() {
    let router = default_router(router_cfg()).unwrap();
    let hint = ChunkHint::from_path("/tmp/notes.md");
    let doc = router.chunk("# x\n\nbody\n", &hint).unwrap();
    assert!(doc.strategy_fingerprint.as_str().starts_with("markdown:v1"));
}

#[test]
fn rust_extension_routes_to_code_rust() {
    let router = default_router(router_cfg()).unwrap();
    let hint = ChunkHint::from_path("/tmp/main.rs");
    let doc = router.chunk("fn a() {}\nfn b() {}\n", &hint).unwrap();
    assert!(doc.strategy_fingerprint.as_str().contains("lang=rust"));
}

#[test]
fn extension_is_case_insensitive() {
    let router = default_router(router_cfg()).unwrap();
    let hint = ChunkHint::from_path("/tmp/MAIN.RS");
    let doc = router.chunk("fn a() {}\nfn b() {}\n", &hint).unwrap();
    assert!(doc.strategy_fingerprint.as_str().contains("lang=rust"));
}

/// Stands in for the semantic chunker: one chunk, stamped `semantic:v1`.
struct StubSemantic;

impl Chunker for StubSemantic {
    fn chunk(&self, text: &str, _hint: &ChunkHint) -> Result<ChunkedDocument, ChunkError> {
        Ok(ChunkedDocument {
            chunks: vec![Chunk {
                index: 0,
                text: text.to_string(),
                boundary: BoundaryKind::Forced,
                start_byte: 0,
                end_byte: text.len(),
                char_len: text.chars().count(),
            }],
            strategy_fingerprint: StrategyFingerprint::new("semantic:v1|stub".to_string()),
        })
    }
}

#[test]
fn txt_routes_to_semantic_chunker() {
    let router = semantic_router(router_cfg(), Box::new(StubSemantic)).unwrap();
    let hint = ChunkHint::from_path("/tmp/notes.txt");
    let doc = router.chunk("A. B. C.", &hint).unwrap();
    assert!(doc.strategy_fingerprint.as_str().starts_with("semantic:v1"));
}

#[test]
fn rs_keeps_code_rust_chunker() {
    let router = semantic_router(router_cfg(), Box::new(StubSemantic)).unwrap();
    let hint = ChunkHint::from_path("/tmp/main.rs");
    let doc = router.chunk("fn a() {}\nfn b() {}\n", &hint).unwrap();
    assert!(doc.strategy_fingerprint.as_str().contains("lang=rust"));
}

#[test]
fn md_routes_to_semantic_chunker() {
    let router = semantic_router(router_cfg(), Box::new(StubSemantic)).unwrap();
    let hint = ChunkHint::from_path("/tmp/notes.md");
    let doc = router.chunk("# hi\n\nA. B.", &hint).unwrap();
    assert!(doc.strategy_fingerprint.as_str().starts_with("semantic:v1"));
}

#[test]
fn document_without_extension_uses_the_fallback() {
    let router = default_router(router_cfg()).unwrap();
    let doc = router.chunk("plain", &ChunkHint::none()).unwrap();
    assert!(doc.strategy_fingerprint.as_str().starts_with("recursive:v1"));
    assert_eq!(router.route(&ChunkHint::none()), None);
}

#[test]
fn registered_extension_routes_and_others_fall_back() {
    let fallback = Box::new(RecursiveChunker::new(chars_cfg(100)).unwrap());
    let router: ChunkerRouter = ChunkerRouter::builder(fallback)
        .register("md", Box::new(MarkdownChunker::new(chars_cfg(100)).unwrap()))
        .register_shared("markdown", "md")
        .build();
    let md_doc = router.chunk("# a\n", &ChunkHint::from_path("x.md")).unwrap();
    assert!(md_doc.strategy_fingerprint.as_str().starts_with("markdown:v1"));
    let alias_doc = router.chunk("# a\n", &ChunkHint::from_path("x.Markdown")).unwrap();
    assert!(alias_doc.strategy_fingerprint.as_str().starts_with("markdown:v1"));
    let other = router.chunk("# a\n", &ChunkHint::from_path("x.txt")).unwrap();
    assert!(other.strategy_fingerprint.as_str().starts_with("recursive:v1"));
    assert!(router.config_fingerprint().as_str().starts_with("router:v1"));
}

#[test]
fn chunk_hint_takes_the_text_after_the_last_dot() {
    assert_eq!(ChunkHint::from_path("/a/b.tar.gz").extension.as_deref(), Some("gz"));
    assert_eq!(ChunkHint::from_path("/a.d/readme").extension, None);
    assert_eq!(ChunkHint::from_path("/a/b.").extension, None);
}

#[test]
fn semantic_errors_render_their_cause() {

    assert_eq!(SemanticError::Provider("down".to_string()).message(), "signal provider failed: down");
    assert_eq!(
        SemanticError::NoSentences.message(),
        "sentence segmentation produced zero sentences for non-empty input"
    );
    assert_eq!(SemanticError::InvalidConfig("p".to_string()).message(), "config invalid: p");
}

#[test]
fn builtin_registrations_route_like_boxed_ones() {
    let router: ChunkerRouter =
        ChunkerRouter::builder_builtin(BuiltinChunker::Recursive(RecursiveChunker::new(chars_cfg(100)).unwrap()))
            .register_builtin("md", BuiltinChunker::Markdown(MarkdownChunker::new(chars_cfg(100)).unwrap()))
            .register_shared("mdx", "md")
            .build();
    let md_doc = router.chunk("# a\n", &ChunkHint::from_path("x.MDX")).unwrap();
    assert!(md_doc.strategy_fingerprint.as_str().starts_with("markdown:v1"));
    let other = router.chunk("hello", &ChunkHint::from_path("x.txt")).unwrap();
    assert!(other.strategy_fingerprint.as_str().starts_with("recursive:v1"));
}

#[test]
fn router_fingerprint_ignores_registration_order() {
    let one = ChunkerRouter::builder(Box::new(RecursiveChunker::new(chars_cfg(100)).unwrap()))
        .register("rs", Box::new(RecursiveChunker::new(chars_cfg(100)).unwrap()))
        .register("md", Box::new(MarkdownChunker::new(chars_cfg(100)).unwrap()))
        .build();
    let two = ChunkerRouter::builder(Box::new(RecursiveChunker::new(chars_cfg(100)).unwrap()))
        .register("md", Box::new(MarkdownChunker::new(chars_cfg(100)).unwrap()))
        .register("rs", Box::new(RecursiveChunker::new(chars_cfg(100)).unwrap()))
        .build();
    assert_eq!(one.config_fingerprint().as_str(), "router:v1|md=on|rs=on");
    assert_eq!(two.config_fingerprint().as_str(), "router:v1|md=on|rs=on");
    let none = ChunkerRouter::builder(Box::new(RecursiveChunker::new(chars_cfg(100)).unwrap())).build();
    assert_eq!(none.config_fingerprint().as_str(), "router:v1");
}
