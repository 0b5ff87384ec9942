use ragloom::ids::{file_version_id, FileFingerprint};
use ragloom::pipeline::planner::{ack_for, count_work_items, Planner};
use ragloom::source::FileVersionDiscovered;
use ragloom::state::wal::{unacked_work_items, InMemoryWal, WalRecord};
use ragloom::pipeline::runtime::{
    after_wal_read, execution_ack, next_file_step, plan_round, processes_file, FileStep, ReadDecision, StepEvent,
    SummaryAction,
};
use ragloom::{RagloomError, RagloomErrorKind};

fn fingerprint() -> FileFingerprint {
    FileFingerprint { canonical_path: "/x/a.txt".to_string(), size_bytes: 10, mtime_unix_secs: 100, etag: None }
}

fn discovered(version_id: [u8; 32]) -> FileVersionDiscovered {
    FileVersionDiscovered { fingerprint: fingerprint(), file_version_id: version_id }
}

fn plan_into(planner: &mut Planner, d: &FileVersionDiscovered, wal: &mut InMemoryWal) {
    if let Some(record) = planner.plan(d) {
        wal.append(record).expect("append");
    }
}

#[test]
fn planner_emits_work_item_v2_with_fingerprint() {
    let mut planner = Planner::new();
    let mut wal = InMemoryWal::new();

    let v = [7u8; 32];
    plan_into(&mut planner, &discovered(v), &mut wal);

    let records = wal.read_all().expect("read all");
    assert_eq!(records.len(), 1);
    assert_eq!(records[0], WalRecord::WorkItemV2 { fingerprint: fingerprint() });
}

#[test]
fn planner_does_not_enqueue_duplicate_work_for_same_file_version() {
    let mut planner = Planner::new();
    let mut wal = InMemoryWal::new();

    let v = [7u8; 32];
    plan_into(&mut planner, &discovered(v), &mut wal);
    plan_into(&mut planner, &discovered(v), &mut wal);

    let records = wal.read_all().expect("read all");
    assert_eq!(records.len(), 1);
    assert_eq!(records[0], WalRecord::WorkItemV2 { fingerprint: fingerprint() });
}

#[test]
fn planner_restored_from_wal_skips_recorded_versions() {
    let fp = fingerprint();
    let id = file_version_id(&fp);
    let records = vec![WalRecord::WorkItemV2 { fingerprint: fp.clone() }];
    let mut planner = Planner::from_wal_records(&records);
    assert!(planner.plan(&FileVersionDiscovered { fingerprint: fp, file_version_id: id }).is_none());
    assert!(planner.plan(&discovered([9u8; 32])).is_some());
}

#[test]
fn acknowledging_work_clears_it() {
    let work = WalRecord::WorkItemV2 { fingerprint: fingerprint() };
    let ack = ack_for(&work).expect("work items are acknowledged");
    assert_eq!(ack, WalRecord::SinkAckV2 { fingerprint: fingerprint() });
    let records = vec![work.clone(), ack];
    assert!(unacked_work_items(&records).is_empty());
    assert_eq!(ack_for(&WalRecord::SinkAck { chunk_id: [0u8; 32] }), None);
    assert_eq!(
        ack_for(&WalRecord::DeleteDocument { canonical_path: "/p".to_string() }),
        Some(WalRecord::DeleteAck { canonical_path: "/p".to_string() })
    );
    assert_eq!(count_work_items(&records), 1);
}

#[test]
fn wal_reads_decide_how_the_loop_continues() {
    assert_eq!(after_wal_read(&Ok(3)), ReadDecision::Proceed(3));
    assert_eq!(after_wal_read(&Err(RagloomError::from_kind(RagloomErrorKind::Internal))), ReadDecision::Retry);
    assert_eq!(after_wal_read(&Err(RagloomError::from_kind(RagloomErrorKind::State))), ReadDecision::Stop);
}

#[test]
fn a_round_hands_on_the_appended_records() {
    let records = vec![
        WalRecord::WorkItemV2 { fingerprint: fingerprint() },
        WalRecord::SinkAckV2 { fingerprint: fingerprint() },
        WalRecord::WorkItem { chunk_id: [1u8; 32] },
    ];
    let round = plan_round(1, &records);
    assert_eq!(round.fresh, records[1..].to_vec());
    assert_eq!(round.discovered, 1);
    assert!(!round.idle);
    let idle = plan_round(3, &records);
    assert!(idle.fresh.is_empty() && idle.idle && idle.discovered == 0);
}

#[test]
fn only_work_items_are_acknowledged_after_execution() {
    let work = WalRecord::WorkItemV2 { fingerprint: fingerprint() };
    assert_eq!(execution_ack(&work), Some(WalRecord::SinkAckV2 { fingerprint: fingerprint() }));
    assert!(processes_file(&work));
    assert_eq!(execution_ack(&WalRecord::WorkItem { chunk_id: [2u8; 32] }), Some(WalRecord::SinkAck { chunk_id: [2u8; 32] }));
    assert!(!processes_file(&WalRecord::WorkItem { chunk_id: [2u8; 32] }));
    assert_eq!(execution_ack(&WalRecord::DeleteDocument { canonical_path: "/p".to_string() }), None);
}

#[test]
fn runtime_does_not_duplicate_work_for_same_file_version_across_ticks() {
    let mut planner = Planner::new();
    let mut wal = InMemoryWal::new();
    let version = [9u8; 32];
    for _tick in 0..2 {
        plan_into(&mut planner, &discovered(version), &mut wal);
    }
    assert_eq!(wal.read_all().expect("read").len(), 1);
}

fn run_steps(events: &[StepEvent]) -> (FileStep, Vec<SummaryAction>) {
    let mut step = FileStep::Load;
    let mut actions = Vec::new();
    for ev in events {
        let (next, action) = next_file_step(step, *ev);
        if action != SummaryAction::Nothing {
            actions.push(action);
        }
        step = next;
    }
    (step, actions)
}

#[test]
fn a_processed_file_is_recorded_once() {
    assert_eq!(
        run_steps(&[StepEvent::Loaded, StepEvent::Built(3), StepEvent::Upserted]),
        (FileStep::Finish, vec![SummaryAction::RecordSuccess(3)])
    );
    assert_eq!(run_steps(&[StepEvent::LoadFailed, StepEvent::Loaded]), (FileStep::Finish, vec![SummaryAction::RecordFailure]));
    assert_eq!(
        run_steps(&[StepEvent::Loaded, StepEvent::BuildFailed, StepEvent::Upserted]),
        (FileStep::Finish, vec![SummaryAction::RecordFailure])
    );
    assert_eq!(
        run_steps(&[StepEvent::Loaded, StepEvent::Built(2), StepEvent::UpsertFailed]),
        (FileStep::Finish, vec![SummaryAction::RecordFailure])
    );
    assert_eq!(run_steps(&[StepEvent::Loaded, StepEvent::Upserted]), (FileStep::Build, vec![]));
}
