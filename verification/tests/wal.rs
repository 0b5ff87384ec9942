use std::collections::HashSet;

use ragloom::ids::FileFingerprint;
use ragloom::state::wal::{known_live_document_paths, unacked_work_items, InMemoryWal, WalRecord};

fn fp(path: &str, size: u64, mtime: i64, etag: Option<&str>) -> FileFingerprint {
    FileFingerprint {
        canonical_path: path.to_string(),
        size_bytes: size,
        mtime_unix_secs: mtime,
        etag: etag.map(|e| e.to_string()),
    }
}

fn live(records: &[WalRecord]) -> HashSet<String> {
    known_live_document_paths(records).into_iter().collect()
}

#[test]
fn wal_roundtrips_records_in_order() {
    let mut wal = InMemoryWal::new();

    wal.append(WalRecord::WorkItem { chunk_id: [1u8; 32] }).expect("append work item");
    wal.append(WalRecord::SinkAck { chunk_id: [1u8; 32] }).expect("append sink ack");

    let records = wal.read_all().expect("read all");
    assert_eq!(records.len(), 2);
    assert_eq!(records[0], WalRecord::WorkItem { chunk_id: [1u8; 32] });
    assert_eq!(records[1], WalRecord::SinkAck { chunk_id: [1u8; 32] });
}

#[test]
fn wal_reports_empty_state() {
    let wal = InMemoryWal::new();
    assert!(wal.is_empty());
}

#[test]
fn wal_roundtrips_work_item_v2() {
    let mut wal = InMemoryWal::new();

    wal.append(WalRecord::WorkItemV2 { fingerprint: fp("/x/a.txt", 10, 100, None) }).expect("append work item v2");

    let records = wal.read_all().expect("read all");
    assert_eq!(records.len(), 1);
    assert_eq!(records[0], WalRecord::WorkItemV2 { fingerprint: fp("/x/a.txt", 10, 100, None) });
}

#[test]
fn unacked_work_items_filters_acknowledged_file_versions() {
    let a = fp("/x/a.txt", 10, 100, None);
    let b = fp("/x/b.txt", 20, 200, None);

    let records = vec![
        WalRecord::WorkItemV2 { fingerprint: a.clone() },
        WalRecord::WorkItemV2 { fingerprint: b.clone() },
        WalRecord::SinkAckV2 { fingerprint: a.clone() },
    ];

    assert_eq!(unacked_work_items(&records), vec![WalRecord::WorkItemV2 { fingerprint: b }]);
}

#[test]
fn unacked_work_items_treats_quoted_and_unquoted_etag_as_same_version() {
    let work = fp("s3://docs-bucket/kb/a.md", 10, 100, Some("\"etag-a\""));
    let ack = fp("s3://docs-bucket/kb/a.md", 10, 100, Some("etag-a"));

    let records = vec![WalRecord::WorkItemV2 { fingerprint: work.clone() }, WalRecord::SinkAckV2 { fingerprint: ack }];

    assert!(unacked_work_items(&records).is_empty());
}

#[test]
fn unacked_work_items_filters_acknowledged_deletes() {
    let records = vec![
        WalRecord::DeleteDocument { canonical_path: "/x/a.txt".to_string() },
        WalRecord::DeleteDocument { canonical_path: "/x/b.txt".to_string() },
        WalRecord::DeleteAck { canonical_path: "/x/a.txt".to_string() },
    ];

    assert_eq!(unacked_work_items(&records), vec![WalRecord::DeleteDocument { canonical_path: "/x/b.txt".to_string() }]);
}

#[test]
fn unacked_work_items_keeps_later_delete_after_prior_delete_ack() {
    let records = vec![
        WalRecord::DeleteDocument { canonical_path: "/x/a.txt".to_string() },
        WalRecord::DeleteAck { canonical_path: "/x/a.txt".to_string() },
        WalRecord::DeleteDocument { canonical_path: "/x/a.txt".to_string() },
    ];

    assert_eq!(unacked_work_items(&records), vec![WalRecord::DeleteDocument { canonical_path: "/x/a.txt".to_string() }]);
}

#[test]
fn known_live_document_paths_restores_acknowledged_file_as_live() {
    let records = vec![
        WalRecord::WorkItemV2 { fingerprint: fp("/x/a.txt", 10, 100, None) },
        WalRecord::SinkAckV2 { fingerprint: fp("/x/a.txt", 10, 100, None) },
    ];

    assert_eq!(live(&records), HashSet::from(["/x/a.txt".to_string()]));
}

#[test]
fn known_live_document_paths_removes_path_after_delete() {
    let records = vec![
        WalRecord::WorkItemV2 { fingerprint: fp("/x/a.txt", 10, 100, None) },
        WalRecord::DeleteDocument { canonical_path: "/x/a.txt".to_string() },
        WalRecord::DeleteAck { canonical_path: "/x/a.txt".to_string() },
    ];

    assert!(live(&records).is_empty());
}

#[test]
fn known_live_document_paths_restores_path_after_reingest() {
    let records = vec![
        WalRecord::WorkItemV2 { fingerprint: fp("/x/a.txt", 10, 100, None) },
        WalRecord::DeleteAck { canonical_path: "/x/a.txt".to_string() },
        WalRecord::WorkItemV2 { fingerprint: fp("/x/a.txt", 11, 101, None) },
    ];

    assert_eq!(live(&records), HashSet::from(["/x/a.txt".to_string()]));
}

#[test]
fn known_live_document_paths_keeps_pending_delete_absent() {
    let records = vec![
        WalRecord::WorkItemV2 { fingerprint: fp("/x/a.txt", 10, 100, None) },
        WalRecord::DeleteDocument { canonical_path: "/x/a.txt".to_string() },
    ];

    assert!(live(&records).is_empty());
}

#[test]
fn known_live_document_paths_tracks_s3_locator_without_normalizing_key() {
    let records = vec![WalRecord::WorkItemV2 { fingerprint: fp("s3://docs-bucket/kb//a.md", 10, 100, Some("\"etag-a\"")) }];

    assert_eq!(live(&records), HashSet::from(["s3://docs-bucket/kb//a.md".to_string()]));
}

#[test]
fn known_live_document_paths_lists_each_path_once() {
    let records = vec![
        WalRecord::WorkItemV2 { fingerprint: fp("/x/a.txt", 1, 1, None) },
        WalRecord::WorkItemV2 { fingerprint: fp("/x/a.txt", 2, 2, None) },
        WalRecord::WorkItemV2 { fingerprint: fp("/x/b.txt", 1, 1, None) },
    ];
    let paths = known_live_document_paths(&records);
    assert_eq!(paths.len(), 2);
    assert_eq!(live(&records), HashSet::from(["/x/a.txt".to_string(), "/x/b.txt".to_string()]));
}

#[test]
fn acknowledged_version_is_not_pending_but_a_new_version_is() {
    let records = vec![
        WalRecord::WorkItemV2 { fingerprint: fp("/x/a.txt", 1, 1, None) },
        WalRecord::SinkAckV2 { fingerprint: fp("/x/a.txt", 1, 1, None) },
        WalRecord::WorkItemV2 { fingerprint: fp("/x/a.txt", 2, 2, None) },
        WalRecord::WorkItem { chunk_id: [3u8; 32] },
        WalRecord::SinkAck { chunk_id: [3u8; 32] },
        WalRecord::WorkItem { chunk_id: [4u8; 32] },
    ];
    assert_eq!(
        unacked_work_items(&records),
        vec![WalRecord::WorkItemV2 { fingerprint: fp("/x/a.txt", 2, 2, None) }, WalRecord::WorkItem { chunk_id: [4u8; 32] }]
    );
}

#[test]
fn in_memory_wal_gives_back_every_append_in_order() {
    let mut wal = InMemoryWal::new();
    assert!(wal.is_empty());
    let records = vec![
        WalRecord::WorkItem { chunk_id: [1u8; 32] },
        WalRecord::SinkAck { chunk_id: [1u8; 32] },
        WalRecord::WorkItem { chunk_id: [2u8; 32] },
    ];
    for r in &records {
        wal.append(r.clone()).unwrap();
    }
    assert_eq!(wal.read_all().unwrap(), records);
    assert_eq!(wal.read_all().unwrap(), records);
    assert!(!wal.is_empty());
}
