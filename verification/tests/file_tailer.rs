use ragloom::ids::{file_version_id, FileFingerprint};
use ragloom::source::file_tailer::{FileTailer, ObservedFileMeta};
use ragloom::source::DirectoryScannerSource;

fn meta(path: &str, size: u64, mtime: i64) -> ObservedFileMeta {
    ObservedFileMeta { canonical_path: path.to_string(), size_bytes: size, mtime_unix_secs: mtime }
}

#[test]
fn same_fingerprint_does_not_emit_new_version_event() {
    let mut tailer = FileTailer::new();

    tailer.observe(meta("/x/a.txt", 10, 100));
    assert_eq!(tailer.drain().len(), 1);

    tailer.observe(meta("/x/a.txt", 10, 100));
    assert_eq!(tailer.drain().len(), 0);
}

#[test]
fn changed_mtime_emits_new_version_event() {
    let mut tailer = FileTailer::new();

    tailer.observe(meta("/x/a.txt", 10, 100));
    let first = tailer.drain();
    assert_eq!(first.len(), 1);

    tailer.observe(meta("/x/a.txt", 10, 101));
    let second = tailer.drain();
    assert_eq!(second.len(), 1);
    assert_ne!(first[0].file_version_id, second[0].file_version_id);
}

#[test]
fn discovered_event_carries_fingerprint_and_its_version_id() {
    let mut tailer = FileTailer::new();
    tailer.observe(meta("/x/b.txt", 7, 9));
    let events = tailer.drain();
    let expected = FileFingerprint { canonical_path: "/x/b.txt".to_string(), size_bytes: 7, mtime_unix_secs: 9, etag: None };
    assert_eq!(events[0].fingerprint, expected);
    assert_eq!(events[0].file_version_id, file_version_id(&expected));
}

#[test]
fn distinct_paths_are_tracked_separately() {
    let mut tailer = FileTailer::new();
    tailer.observe(meta("/x/a.txt", 1, 1));
    tailer.observe(meta("/x/b.txt", 1, 1));
    tailer.observe(meta("/x/a.txt", 1, 1));
    let events = tailer.drain();
    assert_eq!(events.len(), 2);
    assert_eq!(events[0].fingerprint.canonical_path, "/x/a.txt");
    assert_eq!(events[1].fingerprint.canonical_path, "/x/b.txt");
    assert!(tailer.drain().is_empty());
}

#[test]
fn directory_scanner_reports_each_new_version_once() {
    let mut scanner = DirectoryScannerSource::new("/data").expect("scanner");
    assert_eq!(scanner.root(), "/data");
    let first = scanner.poll_observed(vec![meta("/data/a", 1, 1), meta("/data/b", 2, 2)]);
    assert_eq!(first.len(), 2);
    let again = scanner.poll_observed(vec![meta("/data/a", 1, 1), meta("/data/b", 2, 2)]);
    assert!(again.is_empty());
    let changed = scanner.poll_observed(vec![meta("/data/a", 1, 5), meta("/data/b", 2, 2)]);
    assert_eq!(changed.len(), 1);
    assert_eq!(changed[0].fingerprint.mtime_unix_secs, 5);
}
