use ragloom::args::{parse_args, parse_unsigned, scan_args, ArgScan, Flag, IntParseError};
use ragloom::cli::{
    choose_chunker, embedding_fingerprint, parse_code_lang, recursive_config_of, resolve_collection_vector_size,
    ChunkerChoice, EmbedBackend, ParsedCommand, RunConfig,
};
use ragloom::config::{EmbedConfig, PipelineConfig, SinkConfig, SourceConfig, StateConfig};
use ragloom::transform::chunker::code::query::Lang;
use ragloom::transform::chunker::types::SizeMetric;
use ragloom::RagloomErrorKind;

const DEFAULT_STATE_PATH: &str = ".ragloom/wal.ndjson";

fn argv(items: &[&str]) -> Vec<String> {
    items.iter().map(|s| s.to_string()).collect()
}

fn http_base() -> Vec<String> {
    argv(&[
        "ragloom",
        "--dir",
        "/tmp/docs",
        "--embed-backend",
        "http",
        "--embed-url",
        "http://embed",
        "--embed-model",
        "default",
        "--qdrant-url",
        "http://qdrant",
        "--collection",
        "docs",
    ])
}

fn with(mut base: Vec<String>, extra: &[&str]) -> Vec<String> {
    base.extend(extra.iter().map(|s| s.to_string()));
    base
}

fn run_config(args: &[String]) -> RunConfig {
    match parse_args(args, None).expect("config") {
        ParsedCommand::Run(cfg) => *cfg,
        other => panic!("expected run config, got {:?}", other),
    }
}

fn sample_config(backend: EmbedBackend, vector_size: Option<usize>) -> RunConfig {
    RunConfig {
        dir: "/tmp/docs".to_string(),
        embed_backend: backend,
        qdrant_url: "http://qdrant".to_string(),
        collection: "docs".to_string(),
        state_path: DEFAULT_STATE_PATH.to_string(),
        create_collection_if_missing: true,
        collection_vector_size: vector_size,
        chunker_strategy: "recursive".to_string(),
        size_metric: "chars".to_string(),
        size_max: 2000,
        size_min: 0,
        size_overlap: 0,
        tokenizer: "tiktoken-cl100k".to_string(),
        chunker_mode: "router".to_string(),
        chunker_single: None,
        enable_semantic: false,
        semantic_provider: "adapter".to_string(),
        semantic_percentile: 95,
    }
}

fn openai_small() -> EmbedBackend {
    EmbedBackend::OpenAi {
        endpoint: "https://api.openai.com/v1/embeddings".to_string(),
        api_key: "test-key".to_string(),
        model: "text-embedding-3-small".to_string(),
    }
}

#[test]
fn parse_args_returns_error_when_required_flags_missing() {
    let args = argv(&["ragloom"]);
    let err = parse_args(&args, None).expect_err("expected error");
    assert_eq!(err.kind, RagloomErrorKind::Config);
    assert!(err.message().contains("missing required value"));
}

#[test]
fn parse_args_defaults_to_openai_backend_and_requires_api_key() {
    let args = argv(&["ragloom", "--dir", "/tmp/docs", "--qdrant-url", "http://qdrant", "--collection", "docs"]);
    let err = parse_args(&args, None).expect_err("expected error");
    assert_eq!(err.kind, RagloomErrorKind::Config);
    assert!(err.message().contains("missing required flag for openai backend"));
}

#[test]
fn parse_args_returns_config_when_all_flags_are_present() {
    let cfg = parse_args(&http_base(), None).expect("config");
    assert_eq!(
        cfg,
        ParsedCommand::Run(Box::new(RunConfig {
            dir: "/tmp/docs".to_string(),
            embed_backend: EmbedBackend::Http { url: "http://embed".to_string(), model: "default".to_string() },
            qdrant_url: "http://qdrant".to_string(),
            collection: "docs".to_string(),
            state_path: DEFAULT_STATE_PATH.to_string(),
            create_collection_if_missing: false,
            collection_vector_size: None,
            chunker_strategy: "recursive".to_string(),
            size_metric: "chars".to_string(),
            size_max: 2000,
            size_min: 0,
            size_overlap: 0,
            tokenizer: "tiktoken-cl100k".to_string(),
            chunker_mode: "router".to_string(),
            chunker_single: None,
            enable_semantic: false,
            semantic_provider: "adapter".to_string(),
            semantic_percentile: 95,
        }))
    );
}

#[test]
fn parse_args_defaults_state_path() {
    let cfg = run_config(&http_base());
    assert_eq!(cfg.state_path, DEFAULT_STATE_PATH);
}

#[test]
fn parse_args_accepts_state_path_inline_value() {
    let cfg = run_config(&with(http_base(), &["--state-path=.state/ragloom.ndjson"]));
    assert_eq!(cfg.state_path, ".state/ragloom.ndjson");
}

#[test]
fn parse_args_returns_version_command_for_long_flag() {
    let cmd = parse_args(&argv(&["ragloom", "--version"]), None).expect("version command");
    assert_eq!(cmd, ParsedCommand::Version);
}

#[test]
fn parse_args_returns_version_command_for_short_flag() {
    let cmd = parse_args(&argv(&["ragloom", "-V"]), None).expect("version command");
    assert_eq!(cmd, ParsedCommand::Version);
}

#[test]
fn parse_args_returns_version_command_before_required_flag_validation() {
    let cmd = parse_args(&argv(&["ragloom", "--version", "--dir", "/tmp/docs"]), None).expect("version command");
    assert_eq!(cmd, ParsedCommand::Version);
}

#[test]
fn parse_args_returns_help_command_for_help_flag() {
    let cmd = parse_args(&argv(&["ragloom", "--help"]), None).expect("help command");
    assert_eq!(cmd, ParsedCommand::Help);
}

#[test]
fn parse_args_supports_inline_version_flag_before_required_validation() {
    let cmd = parse_args(&argv(&["ragloom", "--version", "--qdrant-url=http://qdrant"]), None).expect("version command");
    assert_eq!(cmd, ParsedCommand::Version);
}

#[test]
fn parse_args_defaults_bootstrap_flags_to_disabled_and_none() {
    let cfg = run_config(&http_base());
    assert!(!cfg.create_collection_if_missing);
    assert_eq!(cfg.collection_vector_size, None);
}

#[test]
fn parse_args_accepts_collection_bootstrap_flags() {
    let cfg = run_config(&with(http_base(), &["--create-collection-if-missing", "--collection-vector-size", "768"]));
    assert!(cfg.create_collection_if_missing);
    assert_eq!(cfg.collection_vector_size, Some(768));
}

#[test]
fn parse_args_rejects_inline_value_for_create_collection_if_missing() {
    let err = parse_args(&with(http_base(), &["--create-collection-if-missing=false"]), None)
        .expect_err("expected invalid boolean flag usage");
    assert_eq!(err.kind, RagloomErrorKind::InvalidInput);
    assert!(err.message().contains("--create-collection-if-missing does not accept a value"));
}

#[test]
fn parse_args_accepts_collection_vector_size_inline_value() {
    let cfg = run_config(&with(http_base(), &["--collection-vector-size=768"]));
    assert_eq!(cfg.collection_vector_size, Some(768));
}

#[test]
fn parse_args_rejects_missing_collection_vector_size_value() {
    let err = parse_args(&with(http_base(), &["--collection-vector-size"]), None)
        .expect_err("expected missing vector size value");
    assert_eq!(err.kind, RagloomErrorKind::InvalidInput);
    assert!(err.message().contains("missing required value: --collection-vector-size"));
}

#[test]
fn parse_args_rejects_invalid_collection_vector_size() {
    let err = parse_args(&with(http_base(), &["--collection-vector-size", "0"]), None)
        .expect_err("expected invalid vector size");
    assert_eq!(err.kind, RagloomErrorKind::InvalidInput);
    assert!(err.message().contains("--collection-vector-size must be positive"));
}

#[test]
fn resolve_collection_vector_size_prefers_explicit_override() {
    let cfg = sample_config(openai_small(), Some(768));
    let size = resolve_collection_vector_size(&cfg).expect("vector size");
    assert_eq!(size, 768);
}

#[test]
fn resolve_collection_vector_size_infers_known_openai_model_size() {
    let cfg = sample_config(openai_small(), None);
    let size = resolve_collection_vector_size(&cfg).expect("vector size");
    assert_eq!(size, 1536);
}

#[test]
fn resolve_collection_vector_size_rejects_http_backend_without_override() {
    let cfg = sample_config(EmbedBackend::Http { url: "http://embed".to_string(), model: "default".to_string() }, None);
    let err = resolve_collection_vector_size(&cfg).expect_err("expected config error");
    assert_eq!(err.kind, RagloomErrorKind::Config);
    assert!(err.message().contains("requires --collection-vector-size"));
}

#[test]
fn enable_semantic_errors_in_single_mode_without_semantic() {
    let args = with(http_base(), &["--chunker-mode", "single", "--chunker-single", "recursive", "--enable-semantic"]);
    let err = parse_args(&args, None).expect_err("must reject");
    assert!(err.message().contains("--enable-semantic"));
}

// ----- beyond the original's cases -----

fn file_config(root: &str, endpoint: &str, url: &str, collection: &str, state: &str) -> PipelineConfig {
    PipelineConfig {
        source: SourceConfig { root: root.to_string() },
        embed: EmbedConfig { endpoint: endpoint.to_string() },
        sink: SinkConfig { qdrant_url: url.to_string(), collection: collection.to_string() },
        state: StateConfig { path: state.to_string() },
    }
}

#[test]
fn parse_args_takes_required_values_from_the_config_file() {
    let fc = file_config(
        "/tmp/from-config",
        "http://embed-from-config",
        "http://qdrant-from-config",
        "from-config",
        ".state/from-config.ndjson",
    );
    let args = argv(&["ragloom", "--config", "ragloom.yaml", "--embed-backend", "http"]);
    let cmd = parse_args(&args, Some(fc)).expect("config");
    let ParsedCommand::Run(cfg) = cmd else { panic!("expected run config") };
    assert_eq!(cfg.dir, "/tmp/from-config");
    assert_eq!(cfg.qdrant_url, "http://qdrant-from-config");
    assert_eq!(cfg.collection, "from-config");
    assert_eq!(cfg.state_path, ".state/from-config.ndjson");
    assert_eq!(
        cfg.embed_backend,
        EmbedBackend::Http { url: "http://embed-from-config".to_string(), model: "default".to_string() }
    );
}

#[test]
fn flags_take_precedence_over_the_config_file() {
    let fc = file_config("/cfg", "http://cfg-embed", "http://cfg-q", "cfg", "cfg.ndjson");
    let args = argv(&["ragloom", "--dir", "/flag", "--openai-api-key", "k", "--collection=flag"]);
    let ParsedCommand::Run(cfg) = parse_args(&args, Some(fc)).expect("config") else { panic!() };
    assert_eq!(cfg.dir, "/flag");
    assert_eq!(cfg.collection, "flag");
    assert_eq!(cfg.qdrant_url, "http://cfg-q");
    assert_eq!(
        cfg.embed_backend,
        EmbedBackend::OpenAi {
            endpoint: "http://cfg-embed".to_string(),
            api_key: "k".to_string(),
            model: "text-embedding-3-small".to_string()
        }
    );
}

#[test]
fn openai_backend_defaults_endpoint_and_model() {
    let args = argv(&["ragloom", "--dir", "d", "--qdrant-url", "q", "--collection", "c", "--openai-api-key", "sk"]);
    let cfg = run_config(&args);
    assert_eq!(
        cfg.embed_backend,
        EmbedBackend::OpenAi {
            endpoint: "https://api.openai.com/v1/embeddings".to_string(),
            api_key: "sk".to_string(),
            model: "text-embedding-3-small".to_string()
        }
    );
}

#[test]
fn unknown_flag_is_rejected_with_usage() {
    let err = parse_args(&argv(&["ragloom", "--bogus=1"]), None).expect_err("unknown");
    assert_eq!(err.kind, RagloomErrorKind::InvalidInput);
    assert_eq!(
        err.contexts,
        vec!["unknown flag: --bogus\nusage: ragloom [--config <path>] --dir <path> --qdrant-url <url> --collection <name> [--state-path <path>] [--embed-backend <openai|http>]".to_string()]
    );
}

#[test]
fn unknown_backend_is_rejected() {
    let err = parse_args(&with(http_base(), &["--embed-backend", "grpc"]), None).expect_err("backend");
    assert_eq!(err.kind, RagloomErrorKind::InvalidInput);
    assert!(err.message().contains("invalid value for --embed-backend: grpc (expected: openai|http)"));
}

#[test]
fn later_flag_replaces_earlier_one() {
    let cfg = run_config(&with(http_base(), &["--dir", "/other"]));
    assert_eq!(cfg.dir, "/other");
}

#[test]
fn blank_state_path_is_rejected() {
    let err = parse_args(&with(http_base(), &["--state-path", "  "]), None).expect_err("blank");
    assert_eq!(err.kind, RagloomErrorKind::Config);
    assert!(err.message().contains("--state-path or state.path is empty"));
}

#[test]
fn size_flags_are_parsed_and_token_metric_changes_default_max() {
    let cfg = run_config(&with(http_base(), &["--size-metric", "tokens", "--size-min=+3", "--size-overlap", "1"]));
    assert_eq!(cfg.size_metric, "tokens");
    assert_eq!(cfg.size_max, 512);
    assert_eq!(cfg.size_min, 3);
    assert_eq!(cfg.size_overlap, 1);
}

#[test]
fn malformed_numbers_name_the_flag_and_the_reason() {
    let err = parse_args(&with(http_base(), &["--size-max", "12x"]), None).expect_err("digit");
    assert_eq!(err.contexts, vec!["--size-max must be integer: invalid digit found in string".to_string()]);
    let err = parse_args(&with(http_base(), &["--size-min="]), None).expect_err("empty");
    assert_eq!(err.contexts, vec!["--size-min must be integer: cannot parse integer from empty string".to_string()]);
    let err = parse_args(&with(http_base(), &["--collection-vector-size", "-1"]), None).expect_err("sign");
    assert_eq!(err.contexts, vec!["--collection-vector-size must be integer: invalid digit found in string".to_string()]);
}

#[test]
fn semantic_percentile_must_be_between_one_and_ninety_nine() {
    let err = parse_args(&with(http_base(), &["--semantic-percentile", "100"]), None).expect_err("range");
    assert_eq!(err.contexts, vec!["--semantic-percentile must be in 1..=99, got 100".to_string()]);
    let err = parse_args(&with(http_base(), &["--semantic-percentile", "256"]), None).expect_err("u8");
    assert_eq!(
        err.contexts,
        vec!["--semantic-percentile must be 1..=99: number too large to fit in target type".to_string()]
    );
    let cfg = run_config(&with(http_base(), &["--semantic-percentile", "50"]));
    assert_eq!(cfg.semantic_percentile, 50);
}

#[test]
fn chunker_mode_single_needs_a_single_chunker() {
    let err = parse_args(&with(http_base(), &["--chunker-mode", "single"]), None).expect_err("single");
    assert_eq!(err.kind, RagloomErrorKind::Config);
    assert!(err.message().contains("--chunker-mode=single requires --chunker-single"));
    let cfg = run_config(&with(
        http_base(),
        &["--chunker-mode", "single", "--chunker-single", "semantic", "--enable-semantic"],
    ));
    assert!(cfg.enable_semantic);
    assert_eq!(cfg.chunker_single.as_deref(), Some("semantic"));
}

#[test]
fn fastembed_provider_is_not_available() {
    let err = parse_args(&with(http_base(), &["--semantic-provider", "fastembed"]), None).expect_err("fastembed");
    assert!(err.message().contains("requires the \"fastembed\" Cargo feature"));
    let err = parse_args(&with(http_base(), &["--semantic-provider", "x"]), None).expect_err("other");
    assert!(err.message().contains("invalid --semantic-provider: x (expected: adapter|fastembed)"));
}

#[test]
fn invalid_choices_are_rejected_in_order() {
    let err = parse_args(&with(http_base(), &["--chunker-strategy", "fancy", "--size-metric", "bytes"]), None).expect_err("x");
    assert!(err.message().contains("invalid --chunker-strategy: fancy (expected: recursive|legacy)"));
    let err = parse_args(&with(http_base(), &["--size-metric", "bytes"]), None).expect_err("x");
    assert!(err.message().contains("invalid --size-metric: bytes (expected: chars|tokens)"));
    let err = parse_args(&with(http_base(), &["--tokenizer", "bpe"]), None).expect_err("x");
    assert!(err.message().contains("invalid --tokenizer: bpe (expected: tiktoken-cl100k)"));
    let err = parse_args(&with(http_base(), &["--chunker-mode", "auto"]), None).expect_err("x");
    assert!(err.message().contains("invalid --chunker-mode: auto (expected: router|single)"));
}

#[test]
fn scan_records_flag_values() {
    let args = argv(&["ragloom", "--config=cfg.yaml", "--enable-semantic", "--tokenizer"]);
    match scan_args(&args).expect("scan") {
        ArgScan::Flags(flags) => {
            assert_eq!(flags.value(Flag::Config).as_deref(), Some("cfg.yaml"));
            assert!(flags.enable_semantic());
            assert!(!flags.create_collection_if_missing());
            assert_eq!(flags.value(Flag::Tokenizer), None);
        }
        _ => panic!("expected flags"),
    }
}

#[test]
fn parse_unsigned_follows_decimal_rules() {
    assert_eq!(parse_unsigned("0", 255), Ok(0));
    assert_eq!(parse_unsigned("+42", 255), Ok(42));
    assert_eq!(parse_unsigned("255", 255), Ok(255));
    assert_eq!(parse_unsigned("256", 255), Err(IntParseError::PosOverflow));
    assert_eq!(parse_unsigned("", 255), Err(IntParseError::Empty));
    assert_eq!(parse_unsigned("+", 255), Err(IntParseError::InvalidDigit));
    assert_eq!(parse_unsigned("9x9999", 255), Err(IntParseError::InvalidDigit));
    assert_eq!(parse_unsigned("18446744073709551615", usize::MAX), Ok(usize::MAX));
}

#[test]
fn embedding_fingerprint_names_backend_and_model() {
    assert_eq!(embedding_fingerprint(&sample_config(openai_small(), None)), "openai:text-embedding-3-small");
    let http = sample_config(EmbedBackend::Http { url: "u".to_string(), model: "m".to_string() }, None);
    assert_eq!(embedding_fingerprint(&http), "http:m");
}

#[test]
fn code_languages_are_named_by_their_fingerprint() {
    assert_eq!(parse_code_lang("tsx").expect("tsx"), Lang::Tsx);
    let err = parse_code_lang("cobol").expect_err("unknown");
    assert_eq!(err.kind, RagloomErrorKind::InvalidInput);
    assert_eq!(err.contexts, vec!["unsupported language: cobol".to_string()]);
}

#[test]
fn chunker_choice_follows_mode_and_single_kind() {
    let mut cfg = sample_config(openai_small(), None);
    assert_eq!(choose_chunker(&cfg).expect("router"), ChunkerChoice::Router);
    cfg.enable_semantic = true;
    assert_eq!(
        choose_chunker(&cfg).expect("semantic"),
        ChunkerChoice::SemanticRouter { provider: "adapter".to_string() }
    );
    cfg.enable_semantic = false;
    cfg.chunker_mode = "single".to_string();
    cfg.chunker_single = Some("code:python".to_string());
    assert_eq!(choose_chunker(&cfg).expect("code"), ChunkerChoice::SingleCode(Lang::Python));
    cfg.chunker_single = Some("code:cobol".to_string());
    assert!(choose_chunker(&cfg).is_err());
    cfg.chunker_single = Some("markdown".to_string());
    assert_eq!(choose_chunker(&cfg).expect("md"), ChunkerChoice::SingleMarkdown);
    let rc = recursive_config_of(&cfg);
    assert_eq!((rc.metric, rc.max_size, rc.min_size, rc.overlap), (SizeMetric::Chars, 2000, 0, 0));
}

#[test]
fn collection_vector_size_reads_alike_inline_and_separate() {
    for v in ["768", "0", "x", "-1"] {
        let inline = format!("--collection-vector-size={v}");
        let a = parse_args(&with(http_base(), &["--collection-vector-size", v]), None);
        let b = parse_args(&with(http_base(), &[inline.as_str()]), None);
        match (a, b) {
            (Ok(x), Ok(y)) => assert_eq!(x, y),
            (Err(x), Err(y)) => assert_eq!(x.message(), y.message()),
            _ => panic!("the two forms disagree for {v}"),
        }
    }
}
