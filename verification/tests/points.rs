use ragloom::ids::FileFingerprint;
use ragloom::pipeline::points::{
    canonical_path_to_file_uri, embedding_inputs, ensure_some_chunk, file_extension_from_canonical_path, hex_digest,
    plan_points, point_id_for, uuid_from_path_chunk_strategy, whole_text_chunk,
};
use ragloom::transform::chunker::recursive::{RecursiveChunker, RecursiveConfig};
use ragloom::transform::chunker::types::{BoundaryKind, ChunkHint, ChunkedDocument, SizeMetric, StrategyFingerprint};
use ragloom::transform::chunker::Chunker;

fn expected_uuid(path: &str, idx: u64, strategy: &str) -> String {
    let mut input = path.as_bytes().to_vec();
    input.push(0x1f);
    input.extend_from_slice(&idx.to_le_bytes());
    input.push(0x1f);
    input.extend_from_slice(strategy.as_bytes());
    let d = blake3::hash(&input);
    let mut b = [0u8; 16];
    b.copy_from_slice(&d.as_bytes()[..16]);
    b[6] = (b[6] & 0x0f) | 0x40;
    b[8] = (b[8] & 0x3f) | 0x80;
    let h: String = b.iter().map(|x| format!("{:02x}", x)).collect();
    format!("{}-{}-{}-{}-{}", &h[0..8], &h[8..12], &h[12..16], &h[16..20], &h[20..32])
}

#[test]
fn point_uuid_is_a_version_four_digest_of_path_index_and_strategy() {
    let u = uuid_from_path_chunk_strategy("/x/a.txt", 3, "recursive:v1|metric=chars|max=10|min=0|overlap=0");
    assert_eq!(u, expected_uuid("/x/a.txt", 3, "recursive:v1|metric=chars|max=10|min=0|overlap=0"));
    assert_eq!(u.len(), 36);
    assert_eq!(&u[14..15], "4");
    assert!(matches!(&u[19..20], "8" | "9" | "a" | "b"));
}

#[test]
fn point_uuid_changes_with_each_input() {
    let base = uuid_from_path_chunk_strategy("/x/a.txt", 0, "s1");
    assert_ne!(base, uuid_from_path_chunk_strategy("/x/b.txt", 0, "s1"));
    assert_ne!(base, uuid_from_path_chunk_strategy("/x/a.txt", 1, "s1"));
    assert_ne!(base, uuid_from_path_chunk_strategy("/x/a.txt", 0, "s2"));
    assert_eq!(base, uuid_from_path_chunk_strategy("/x/a.txt", 0, "s1"));
}

#[test]
fn point_id_for_wraps_the_uuid() {
    let id = point_id_for("/x/a.txt", 2, "s");
    assert_eq!(id.as_str(), uuid_from_path_chunk_strategy("/x/a.txt", 2, "s"));
}

#[test]
fn file_uri_normalizes_separators_and_drives() {
    assert_eq!(canonical_path_to_file_uri("/x/a.txt"), "file:///x/a.txt");
    assert_eq!(canonical_path_to_file_uri("D:\\docs\\a.txt"), "file:///D:/docs/a.txt");
    assert_eq!(canonical_path_to_file_uri("rel/a.txt"), "file:///rel/a.txt");
    assert_eq!(canonical_path_to_file_uri(""), "file:///");
}

#[test]
fn file_extension_is_taken_from_the_file_name() {
    assert_eq!(file_extension_from_canonical_path("/x/a.TXT"), "TXT");
    assert_eq!(file_extension_from_canonical_path("/x.d/readme"), "");
    assert_eq!(file_extension_from_canonical_path("C:\\x\\b.tar.gz"), "gz");
    assert_eq!(file_extension_from_canonical_path("/x/.bashrc"), "bashrc");
}

#[test]
fn hex_digest_is_lowercase_blake3_hex() {
    assert_eq!(hex_digest("file:///x/a.txt"), blake3::hash(b"file:///x/a.txt").to_hex().to_string());
    assert_eq!(hex_digest("").len(), 64);
}

fn sample_doc(text: &str) -> ChunkedDocument {
    let c = RecursiveChunker::new(RecursiveConfig { metric: SizeMetric::Chars, max_size: 4, min_size: 0, overlap: 0 }).unwrap();
    c.chunk(text, &ChunkHint::none()).unwrap()
}

#[test]
fn plan_points_links_neighbouring_chunks() {
    let fp = FileFingerprint { canonical_path: "/x/a.md".to_string(), size_bytes: 10, mtime_unix_secs: 7, etag: None };
    let doc = sample_doc("abcdefghij");
    let plans = plan_points(&fp, &doc);
    assert_eq!(plans.len(), 3);
    let strat = doc.strategy_fingerprint.as_str();
    for (i, p) in plans.iter().enumerate() {
        assert_eq!(p.id.as_str(), expected_uuid("/x/a.md", i as u64, strat));
        assert_eq!(p.canonical_path, "file:///x/a.md");
        assert_eq!(p.doc_id, blake3::hash(b"file:///x/a.md").to_hex().to_string());
        assert_eq!(p.tenant_id, "default");
        assert_eq!(p.file_extension, "md");
        assert_eq!(p.size_bytes, 10);
        assert_eq!(p.mtime_unix_secs, 7);
        assert_eq!(p.chunk_index, i);
        assert_eq!(p.total_chunks, 3);
        assert_eq!(p.chunk_text, doc.chunks[i].text);
        assert_eq!(p.chunk_text_sha256, blake3::hash(doc.chunks[i].text.as_bytes()).to_hex().to_string());
        assert_eq!(p.strategy_fingerprint, strat);
        assert_eq!(p.chunk_start_byte, doc.chunks[i].start_byte);
        assert_eq!(p.chunk_end_byte, doc.chunks[i].end_byte);
    }
    assert_eq!(plans[0].previous_chunk_id, None);
    assert_eq!(plans[0].next_chunk_id.as_deref(), Some(plans[1].id.as_str()));
    assert_eq!(plans[2].previous_chunk_id.as_deref(), Some(plans[1].id.as_str()));
    assert_eq!(plans[2].next_chunk_id, None);
}

#[test]
fn empty_document_gets_one_whole_text_chunk() {
    let doc = ChunkedDocument { chunks: vec![], strategy_fingerprint: StrategyFingerprint::new("s".to_string()) };
    let doc = ensure_some_chunk(doc, "héllo");
    assert_eq!(doc.chunks.len(), 1);
    assert_eq!(doc.chunks[0].text, "héllo");
    assert_eq!(doc.chunks[0].boundary, BoundaryKind::Forced);
    assert_eq!(doc.chunks[0].end_byte, 6);
    assert_eq!(doc.chunks[0].char_len, 5);
    assert_eq!(doc.strategy_fingerprint.as_str(), "s");
    let kept = ensure_some_chunk(sample_doc("abcdef"), "ignored");
    assert_eq!(kept.chunks.len(), 2);
}

#[test]
fn whole_text_chunk_covers_the_text() {
    let c = whole_text_chunk("ab");
    assert_eq!((c.index, c.start_byte, c.end_byte, c.char_len), (0, 0, 2, 2));
}

#[test]
fn embedding_inputs_are_the_chunk_texts() {
    let doc = sample_doc("abcdefghij");
    assert_eq!(embedding_inputs(&doc), vec!["abcd".to_string(), "efgh".to_string(), "ij".to_string()]);
}

fn chunk_with_max(max: usize, text: &str) -> ChunkedDocument {
    let c = RecursiveChunker::new(RecursiveConfig { metric: SizeMetric::Chars, max_size: max, min_size: 0, overlap: 0 }).unwrap();
    c.chunk(text, &ChunkHint::from_path("/tmp/x.txt")).unwrap()
}

#[test]
fn two_strategies_yield_distinct_point_ids() {
    let fp = FileFingerprint { canonical_path: "/tmp/x.txt".into(), size_bytes: 10, mtime_unix_secs: 1, etag: None };
    let text = "hello world. good morning. nice weather. lots of content here. \
                and more prose. even more. still more. and yet more.";

    let points_a = plan_points(&fp, &ensure_some_chunk(chunk_with_max(16, text), text));
    let points_b = plan_points(&fp, &ensure_some_chunk(chunk_with_max(32, text), text));

    let ids_a: std::collections::HashSet<String> = points_a.iter().map(|p| p.id.as_str().to_string()).collect();
    let ids_b: std::collections::HashSet<String> = points_b.iter().map(|p| p.id.as_str().to_string()).collect();

    assert!(!ids_a.is_empty() && !ids_b.is_empty(), "both chunkers must produce at least one point");
    assert!(ids_a.is_disjoint(&ids_b), "IDs must differ across strategies: a={:?} b={:?}", ids_a, ids_b);
    assert_eq!(points_a[0].id.as_str(), "9904e630-a206-4da1-b15f-aa169b35f7de");
}

#[test]
fn payload_canonical_path_is_file_uri() {
    let fp = FileFingerprint {
        canonical_path: "D:/code\\repo\\a.txt".to_string(),
        size_bytes: 10,
        mtime_unix_secs: 100,
        etag: None,
    };
    let doc = ensure_some_chunk(chunk_with_max(512, "hello"), "hello");
    let plans = plan_points(&fp, &doc);
    let got = plans[0].canonical_path.as_str();
    assert!(got.starts_with("file:///"), "expected file URI: {got}");
    assert!(!got.contains('\\'), "uri must not contain \\: {got}");
    assert_eq!(got, "file:///D:/code/repo/a.txt");
}
