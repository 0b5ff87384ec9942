use ragloom::pipeline::summary::{IngestionSummary, IngestionSummarySnapshot};

#[test]
fn ingestion_summary_tracks_counts_and_resets_after_ready_emit() {
    let mut summary = IngestionSummary::default();

    summary.record_discovered(2, 1_000);
    summary.record_success(3, 1_010);
    summary.record_failure(1_020);

    let snapshot = summary.snapshot(1_030);
    assert_eq!(
        snapshot,
        IngestionSummarySnapshot {
            discovered_files: 2,
            indexed_files: 1,
            failed_files: 1,
            emitted_points: 3,
            pending_files: 0,
            elapsed_ms: snapshot.elapsed_ms,
        }
    );

    assert!(summary.emit_if_ready(1_040).is_some());

    let reset = summary.snapshot(1_050);
    assert_eq!(reset.discovered_files, 0);
    assert_eq!(reset.indexed_files, 0);
    assert_eq!(reset.failed_files, 0);
    assert_eq!(reset.emitted_points, 0);
    assert_eq!(reset.pending_files, 0);
}

#[test]
fn elapsed_time_counts_from_first_activity() {
    let mut summary = IngestionSummary::new();
    summary.record_discovered(1, 500);
    summary.record_discovered(1, 700);
    assert_eq!(summary.snapshot(900).elapsed_ms, 400);
    assert_eq!(summary.snapshot(100).elapsed_ms, 0);
}

#[test]
fn zero_discovered_is_not_activity() {
    let mut summary = IngestionSummary::new();
    summary.record_discovered(0, 5);
    assert!(summary.emit_if_dirty(10).is_none());
    assert_eq!(summary, IngestionSummary::new());
}

#[test]
fn window_with_pending_files_is_not_ready() {
    let mut summary = IngestionSummary::new();
    summary.record_discovered(2, 0);
    summary.record_success(4, 10);
    assert!(summary.emit_if_ready(20).is_none());
    assert_eq!(summary.pending_files, 1);
    let emitted = summary.emit_if_dirty(30).expect("dirty window emits");
    assert_eq!(emitted.pending_files, 1);
    assert_eq!(emitted.emitted_points, 4);
    assert_eq!(emitted.elapsed_ms, 30);
    assert_eq!(summary, IngestionSummary::new());
}

#[test]
fn pending_never_goes_below_zero() {
    let mut summary = IngestionSummary::new();
    summary.record_failure(0);
    summary.record_success(1, 0);
    assert_eq!(summary.pending_files, 0);
    assert_eq!(summary.failed_files, 1);
    assert_eq!(summary.indexed_files, 1);
}
