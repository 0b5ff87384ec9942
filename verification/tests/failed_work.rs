use std::path::PathBuf;

use ragloom::ids::FileFingerprint;
use ragloom::state::failed::{
    failed_work_path_from_state_path, max_exhausted_id, next_failed_work_id, pending_failed_work, FailedWorkFailureKind,
    FailedWorkRecord, FailedWorkTerminalReason, InMemoryFailedWorkStore, PendingFailedWork,
};
use ragloom::state::wal::WalRecord;
use ragloom::RagloomErrorKind;

fn sample_work(path: &str) -> WalRecord {
    WalRecord::WorkItemV2 {
        fingerprint: FileFingerprint {
            canonical_path: path.to_string(),
            size_bytes: 10,
            mtime_unix_secs: 100,
            etag: None,
        },
    }
}

#[test]
fn pending_failed_work_filters_requeued_entries() {
    let records = vec![
        FailedWorkRecord::Exhausted {
            id: 1,
            work: sample_work("/x/a.txt"),
            failure_kind: FailedWorkFailureKind::Sink,
            terminal_reason: FailedWorkTerminalReason::RetryExhausted,
            attempts: 2,
        },
        FailedWorkRecord::Exhausted {
            id: 2,
            work: sample_work("/x/b.txt"),
            failure_kind: FailedWorkFailureKind::Embed,
            terminal_reason: FailedWorkTerminalReason::NonRetryable,
            attempts: 1,
        },
        FailedWorkRecord::Requeued { exhausted_id: 1 },
    ];

    assert_eq!(
        pending_failed_work(&records),
        vec![PendingFailedWork {
            id: 2,
            work: sample_work("/x/b.txt"),
            failure_kind: FailedWorkFailureKind::Embed,
            terminal_reason: FailedWorkTerminalReason::NonRetryable,
            attempts: 1,
        }]
    );
}

#[test]
fn later_exhaustion_after_prior_requeue_stays_pending() {
    let records = vec![
        FailedWorkRecord::Exhausted {
            id: 1,
            work: sample_work("/x/a.txt"),
            failure_kind: FailedWorkFailureKind::Io,
            terminal_reason: FailedWorkTerminalReason::RetryExhausted,
            attempts: 2,
        },
        FailedWorkRecord::Requeued { exhausted_id: 1 },
        FailedWorkRecord::Exhausted {
            id: 2,
            work: sample_work("/x/a.txt"),
            failure_kind: FailedWorkFailureKind::Io,
            terminal_reason: FailedWorkTerminalReason::RetryExhausted,
            attempts: 2,
        },
    ];

    assert_eq!(pending_failed_work(&records).len(), 1);
    assert_eq!(pending_failed_work(&records)[0].id, 2);
}

#[test]
fn failed_work_path_uses_state_directory() {
    assert_eq!(
        PathBuf::from(failed_work_path_from_state_path(".ragloom/wal.ndjson")),
        PathBuf::from(".ragloom").join("failed.ndjson")
    );
}

#[test]
fn failed_work_path_of_a_bare_file_name_is_relative() {
    assert_eq!(failed_work_path_from_state_path("wal.ndjson"), "failed.ndjson");
    assert_eq!(failed_work_path_from_state_path(""), "failed.ndjson");
    assert_eq!(failed_work_path_from_state_path("/wal.ndjson"), "/failed.ndjson");
    assert_eq!(failed_work_path_from_state_path("a//b/"), "a/failed.ndjson");
}

#[test]
fn pending_failed_work_is_ordered_by_id() {
    let records = vec![
        FailedWorkRecord::Exhausted {
            id: 5,
            work: sample_work("/x/e.txt"),
            failure_kind: FailedWorkFailureKind::State,
            terminal_reason: FailedWorkTerminalReason::RetryExhausted,
            attempts: 4,
        },
        FailedWorkRecord::Exhausted {
            id: 3,
            work: sample_work("/x/c.txt"),
            failure_kind: FailedWorkFailureKind::Internal,
            terminal_reason: FailedWorkTerminalReason::NonRetryable,
            attempts: 1,
        },
    ];
    let pending = pending_failed_work(&records);
    assert_eq!(pending.iter().map(|p| p.id).collect::<Vec<_>>(), vec![3, 5]);
}

#[test]
fn next_id_follows_the_largest_exhausted_id() {
    assert_eq!(next_failed_work_id(&[]), 1);
    let records = vec![
        FailedWorkRecord::Exhausted {
            id: 7,
            work: sample_work("/x/a.txt"),
            failure_kind: FailedWorkFailureKind::Embed,
            terminal_reason: FailedWorkTerminalReason::RetryExhausted,
            attempts: 2,
        },
        FailedWorkRecord::Requeued { exhausted_id: 7 },
        FailedWorkRecord::Requeued { exhausted_id: 99 },
    ];
    assert_eq!(max_exhausted_id(&records), 7);
    assert_eq!(next_failed_work_id(&records), 8);
}

#[test]
fn failure_kind_follows_the_error_kind() {
    assert_eq!(FailedWorkFailureKind::from_error_kind(RagloomErrorKind::Embed), FailedWorkFailureKind::Embed);
    assert_eq!(FailedWorkFailureKind::from_error_kind(RagloomErrorKind::Sink), FailedWorkFailureKind::Sink);
    assert_eq!(FailedWorkFailureKind::from_error_kind(RagloomErrorKind::Io), FailedWorkFailureKind::Io);
}

#[test]
fn in_memory_failed_work_store_keeps_append_order() {
    let mut store = InMemoryFailedWorkStore::new();
    assert!(store.is_empty());
    store.append(FailedWorkRecord::Requeued { exhausted_id: 1 }).expect("append");
    store.append(FailedWorkRecord::Requeued { exhausted_id: 2 }).expect("append");
    assert!(!store.is_empty());
    assert_eq!(
        store.read_all().expect("read"),
        vec![FailedWorkRecord::Requeued { exhausted_id: 1 }, FailedWorkRecord::Requeued { exhausted_id: 2 }]
    );
}
