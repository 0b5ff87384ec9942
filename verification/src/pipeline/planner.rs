//! Work planning: a discovered file version is enqueued at most once.
use vstd::prelude::*;
use crate::ids::file_version_id;
use crate::source::FileVersionDiscovered;
use crate::ids::FileFingerprint;
use crate::state::wal::{id_eq, law_acked_version_is_not_pending, pending_work, version_of, WalRecord};

verus! {

/// Remembers which versions were already planned.
#[derive(Debug)]
pub struct Planner {
    planned_versions: Vec<[u8; 32]>,
}

/// Version identifiers recorded by the first `n` records: a file-version
/// record contributes the identifier of its version, a chunk record its chunk
/// identifier; delete records contribute nothing.
pub open spec fn recorded_ids(rs: Seq<WalRecord>, n: int) -> Set<Seq<u8>>
    decreases n,
{
    if n <= 0 {
        Set::empty()
    } else {
        let s = recorded_ids(rs, n - 1);
        match rs[n - 1] {
            WalRecord::WorkItemV2 { fingerprint } => s.insert(version_of(fingerprint)),
            WalRecord::SinkAckV2 { fingerprint } => s.insert(version_of(fingerprint)),
            WalRecord::WorkItem { chunk_id } => s.insert(chunk_id@),
            WalRecord::SinkAck { chunk_id } => s.insert(chunk_id@),
            _ => s,
        }
    }
}

impl Planner {
    /// Whether version `v` was already planned.
    pub closed spec fn planned(&self, v: Seq<u8>) -> bool {
        exists|k: int| 0 <= k < self.planned_versions@.len() && (#[trigger] self.planned_versions@[k])@ == v
    }

    /// A planner that planned nothing.
    pub fn new() -> (p: Self)
        ensures
            forall|v: Seq<u8>| !#[trigger] p.planned(v),
    {
        Planner { planned_versions: Vec::new() }
    }

    /// A planner that treats every version recorded in `records` as planned.
    pub fn from_wal_records(records: &[WalRecord]) -> (p: Self)
        ensures
            forall|v: Seq<u8>| #[trigger] p.planned(v) <==> recorded_ids(records@, records@.len() as int).contains(v),
    {
        let ghost rs = records@;
        let mut planned: Vec<[u8; 32]> = Vec::new();
        let mut i: usize = 0;
        while i < records.len()
            invariant
                i <= rs.len(),
                rs == records@,
                forall|v: Seq<u8>| (exists|k: int| 0 <= k < planned@.len() && (#[trigger] planned@[k])@ == v)
                    <==> #[trigger] recorded_ids(rs, i as int).contains(v),
            decreases rs.len() - i,
        {
            let ghost before = planned@;
            let id: Option<[u8; 32]> = match &records[i] {
                WalRecord::WorkItemV2 { fingerprint } => Some(file_version_id(fingerprint)),
                WalRecord::SinkAckV2 { fingerprint } => Some(file_version_id(fingerprint)),
                WalRecord::WorkItem { chunk_id } => Some(*chunk_id),
                WalRecord::SinkAck { chunk_id } => Some(*chunk_id),
                _ => None,
            };
            match id {
                Some(x) => {
                    planned.push(x);
                    proof {
                        let s2 = recorded_ids(rs, i + 1);
                        assert(s2 == recorded_ids(rs, i as int).insert(x@));
                        assert forall|v: Seq<u8>| (exists|k: int| 0 <= k < planned@.len() && (#[trigger] planned@[k])@ == v)
                            <==> #[trigger] s2.contains(v) by {
                            if exists|k: int| 0 <= k < planned@.len() && (#[trigger] planned@[k])@ == v {
                                let k = choose|k: int| 0 <= k < planned@.len() && (#[trigger] planned@[k])@ == v;
                                if k < before.len() {
                                    assert(before[k] == planned@[k]);
                                }
                            }
                            if s2.contains(v) && v != x@ {
                                let k = choose|k: int| 0 <= k < before.len() && (#[trigger] before[k])@ == v;
                                assert(planned@[k] == before[k]);
                            }
                            if v == x@ {
                                assert(planned@[before.len() as int]@ == v);
                            }
                        }
                    }
                },
                None => {
                    proof {
                        assert(recorded_ids(rs, i + 1) == recorded_ids(rs, i as int));
                    }
                },
            }
            i += 1;
        }
        let ghost pv = planned@;
        let p = Planner { planned_versions: planned };
        proof {
            assert(p.planned_versions@ == pv);
            assert forall|v: Seq<u8>| #[trigger] p.planned(v) <==> recorded_ids(rs, rs.len() as int).contains(v) by {
                assert(recorded_ids(rs, rs.len() as int).contains(v) <==> exists|k: int| 0 <= k < pv.len() && (#[trigger] pv[k])@ == v);
            }
        }
        p
    }

    /// Plans work for a discovered version: the first time a version is
    /// seen it is marked planned and a `WorkItemV2` for it is returned; a
    /// version already planned yields nothing.
    pub fn plan(&mut self, discovered: &FileVersionDiscovered) -> (r: Option<WalRecord>)
        ensures
            old(self).planned(discovered.file_version_id@) ==> r is None,
            !old(self).planned(discovered.file_version_id@) ==> r == Some(
                WalRecord::WorkItemV2 { fingerprint: discovered.fingerprint },
            ),
            forall|v: Seq<u8>| #[trigger] final(self).planned(v) <==> (old(self).planned(v) || v == discovered.file_version_id@),
    {
        let mut k: usize = 0;
        while k < self.planned_versions.len()
            invariant
                k <= self.planned_versions@.len(),
                self.planned_versions@ == old(self).planned_versions@,
                forall|m: int| 0 <= m < k ==> (#[trigger] self.planned_versions@[m])@ != discovered.file_version_id@,
            decreases self.planned_versions@.len() - k,
        {
            if id_eq(&self.planned_versions[k], &discovered.file_version_id) {
                proof {
                    assert(old(self).planned(discovered.file_version_id@));
                    assert forall|v: Seq<u8>| #[trigger] self.planned(v) <==> (old(self).planned(v) || v == discovered.file_version_id@) by {}
                }
                return None;
            }
            k += 1;
        }
        let ghost before = self.planned_versions@;
        self.planned_versions.push(discovered.file_version_id);
        proof {
            assert forall|v: Seq<u8>| #[trigger] self.planned(v) <==> (old(self).planned(v) || v == discovered.file_version_id@) by {
                if self.planned(v) {
                    let m = choose|m: int| 0 <= m < self.planned_versions@.len() && (#[trigger] self.planned_versions@[m])@ == v;
                    if m < before.len() {
                        assert(before[m] == self.planned_versions@[m]);
                    }
                }
                if old(self).planned(v) {
                    let m = choose|m: int| 0 <= m < before.len() && (#[trigger] before[m])@ == v;
                    assert(self.planned_versions@[m] == before[m]);
                }
                if v == discovered.file_version_id@ {
                    assert(self.planned_versions@[before.len() as int]@ == v);
                }
            }
        }
        Some(WalRecord::WorkItemV2 { fingerprint: discovered.fingerprint.clone() })
    }
}

/// The acknowledgement written once a record's work has been carried out:
/// a work item is acknowledged by the matching sink acknowledgement, a delete
/// by a delete acknowledgement; acknowledgements need none.
pub open spec fn ack_of(r: WalRecord) -> Option<WalRecord> {
    match r {
        WalRecord::WorkItem { chunk_id } => Some(WalRecord::SinkAck { chunk_id }),
        WalRecord::WorkItemV2 { fingerprint } => Some(WalRecord::SinkAckV2 { fingerprint }),
        WalRecord::DeleteDocument { canonical_path } => Some(WalRecord::DeleteAck { canonical_path }),
        _ => None,
    }
}

/// The acknowledgement of `record`, see [`ack_of`].
pub fn ack_for(record: &WalRecord) -> (a: Option<WalRecord>)
    ensures
        a == ack_of(*record),
{
    match record {
        WalRecord::WorkItem { chunk_id } => Some(WalRecord::SinkAck { chunk_id: *chunk_id }),
        WalRecord::WorkItemV2 { fingerprint } => Some(WalRecord::SinkAckV2 { fingerprint: fingerprint.clone() }),
        WalRecord::DeleteDocument { canonical_path } => Some(WalRecord::DeleteAck { canonical_path: canonical_path.clone() }),
        _ => None,
    }
}

/// Number of work items (chunk or file version) among the first `n` records.
pub open spec fn work_count(rs: Seq<WalRecord>, n: int) -> nat
    decreases n,
{
    if n <= 0 {
        0
    } else {
        work_count(rs, n - 1) + match rs[n - 1] {
            WalRecord::WorkItem { .. } => 1nat,
            WalRecord::WorkItemV2 { .. } => 1nat,
            _ => 0nat,
        }
    }
}

/// The number of work items among `records`.
pub fn count_work_items(records: &[WalRecord]) -> (n: usize)
    ensures
        n == work_count(records@, records@.len() as int),
{
    let mut n: usize = 0;
    let mut i: usize = 0;
    while i < records.len()
        invariant
            i <= records@.len(),
            n == work_count(records@, i as int),
            n <= i,
        decreases records@.len() - i,
    {
        match &records[i] {
            WalRecord::WorkItem { .. } => n += 1,
            WalRecord::WorkItemV2 { .. } => n += 1,
            _ => {},
        }
        i += 1;
    }
    n
}

/// Once the acknowledgement of a file-version work item is logged, that
/// work item is no longer owed.
pub proof fn law_ack_clears_work(rs: Seq<WalRecord>, fp: FileFingerprint)
    ensures
        ack_of(work_item_of(fp)) == Some(sink_ack_of(fp)),
        forall|k: int| 0 <= k < pending_work(rs.push(sink_ack_of(fp))).len()
            ==> #[trigger] pending_work(rs.push(sink_ack_of(fp)))[k] != work_item_of(fp),
{
    law_acked_version_is_not_pending(rs, fp);
}

pub open spec fn work_item_of(fp: FileFingerprint) -> WalRecord {
    WalRecord::WorkItemV2 { fingerprint: fp }
}

pub open spec fn sink_ack_of(fp: FileFingerprint) -> WalRecord {
    WalRecord::SinkAckV2 { fingerprint: fp }
}

} // verus!
