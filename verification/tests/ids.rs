use ragloom::ids::{file_version_id, normalize_etag, version_bytes, FileFingerprint};

fn plain_fp(path: &str, size: u64, mtime: i64) -> FileFingerprint {
    FileFingerprint { canonical_path: path.to_string(), size_bytes: size, mtime_unix_secs: mtime, etag: None }
}

#[test]
fn file_version_id_is_stable_for_identical_fingerprint() {
    let fingerprint = plain_fp("/x/a.txt", 10, 100);
    assert_eq!(file_version_id(&fingerprint), file_version_id(&fingerprint));
}

#[test]
fn file_version_id_changes_when_size_changes() {
    let a = plain_fp("/x/a.txt", 10, 100);
    let b = plain_fp("/x/a.txt", 11, 100);
    assert_ne!(file_version_id(&a), file_version_id(&b));
}

#[test]
fn file_version_id_changes_when_mtime_changes() {
    let a = plain_fp("/x/a.txt", 10, 100);
    let b = plain_fp("/x/a.txt", 10, 101);
    assert_ne!(file_version_id(&a), file_version_id(&b));
}

#[test]
fn file_version_id_changes_when_path_changes() {
    let a = plain_fp("/x/a.txt", 10, 100);
    let b = plain_fp("/x/b.txt", 10, 100);
    assert_ne!(file_version_id(&a), file_version_id(&b));
}

#[test]
fn version_bytes_are_path_then_little_endian_size_and_mtime() {
    let bytes = version_bytes(&plain_fp("ab", 1, -1));
    let mut expected = b"ab".to_vec();
    expected.extend_from_slice(&1u64.to_le_bytes());
    expected.extend_from_slice(&(-1i64).to_le_bytes());
    assert_eq!(bytes, expected);
}

#[test]
fn file_version_id_is_the_blake3_digest_of_the_version_bytes() {
    let f = plain_fp("/x/a.txt", 10, 100);
    let expected = *blake3::hash(&version_bytes(&f)).as_bytes();
    assert_eq!(file_version_id(&f), expected);
    assert_ne!(file_version_id(&f).to_vec(), version_bytes(&f)[..32.min(version_bytes(&f).len())].to_vec());
}

#[test]
fn etag_is_appended_after_a_separator() {
    let mut f = plain_fp("k", 2, 3);
    f.etag = Some("\"v1\"".to_string());
    let bytes = version_bytes(&f);
    let mut expected = b"k".to_vec();
    expected.extend_from_slice(&2u64.to_le_bytes());
    expected.extend_from_slice(&3i64.to_le_bytes());
    expected.push(0x1f);
    expected.extend_from_slice(b"v1");
    assert_eq!(bytes, expected);
}

#[test]
fn quoted_and_unquoted_etags_give_the_same_version() {
    let mut a = plain_fp("s3://b/k", 2, 3);
    a.etag = Some("\"abc\"".to_string());
    let mut b = plain_fp("s3://b/k", 2, 3);
    b.etag = Some("abc".to_string());
    assert_eq!(file_version_id(&a), file_version_id(&b));
    let mut c = plain_fp("s3://b/k", 2, 3);
    c.etag = Some("abd".to_string());
    assert_ne!(file_version_id(&a), file_version_id(&c));
}

#[test]
fn normalize_etag_strips_one_pair_of_quotes_only() {
    assert_eq!(normalize_etag("\"abc\""), "abc");
    assert_eq!(normalize_etag("\"\"x\"\""), "\"x\"");
    assert_eq!(normalize_etag("\""), "\"");
    assert_eq!(normalize_etag("abc\""), "abc\"");
}
