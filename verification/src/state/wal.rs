//! Write-ahead log records and their replay projections.
//!
//! Only pipeline boundary events are logged: work enqueued, sink writes
//! acknowledged, and document deletes. Replay derives the work still owed and
//! the set of documents known to be live.
use vstd::prelude::*;
use crate::error::RagloomError;
use crate::ids::{blake3_digest, file_version_id, version_hash_input, FileFingerprint};

verus! {

/// A durable record of progress at a pipeline boundary.
#[derive(Debug, PartialEq, Eq)]
pub enum WalRecord {
    /// A chunk has been enqueued for processing.
    WorkItem { chunk_id: [u8; 32] },
    /// A file version has been enqueued for processing.
    WorkItemV2 { fingerprint: FileFingerprint },
    /// A chunk has been written to the sink.
    SinkAck { chunk_id: [u8; 32] },
    /// A file version has been written to the sink.
    SinkAckV2 { fingerprint: FileFingerprint },
    /// A document delete has been enqueued for the sink.
    DeleteDocument { canonical_path: String },
    /// A document delete has been applied to the sink.
    DeleteAck { canonical_path: String },
}

impl Clone for WalRecord {
    fn clone(&self) -> (c: Self)
        ensures
            c == *self,
    {
        match self {
            WalRecord::WorkItem { chunk_id } => WalRecord::WorkItem { chunk_id: *chunk_id },
            WalRecord::WorkItemV2 { fingerprint } => WalRecord::WorkItemV2 { fingerprint: fingerprint.clone() },
            WalRecord::SinkAck { chunk_id } => WalRecord::SinkAck { chunk_id: *chunk_id },
            WalRecord::SinkAckV2 { fingerprint } => WalRecord::SinkAckV2 { fingerprint: fingerprint.clone() },
            WalRecord::DeleteDocument { canonical_path } => WalRecord::DeleteDocument {
                canonical_path: canonical_path.clone(),
            },
            WalRecord::DeleteAck { canonical_path } => WalRecord::DeleteAck { canonical_path: canonical_path.clone() },
        }
    }
}

/// A copy of a sequence of records.
pub fn clone_records(rs: &[WalRecord]) -> (v: Vec<WalRecord>)
    ensures
        v@ == rs@,
{
    let mut v: Vec<WalRecord> = Vec::new();
    let mut i: usize = 0;
    while i < rs.len()
        invariant
            i <= rs@.len(),
            v@ == rs@.take(i as int),
        decreases rs@.len() - i,
    {
        v.push(rs[i].clone());
        assert(rs@.take(i + 1) =~= rs@.take(i as int).push(rs@[i as int]));
        i += 1;
    }
    assert(rs@.take(rs@.len() as int) =~= rs@);
    v
}

/// Ordered append and replay of WAL records.
pub trait WalStore: Send {
    fn append(&mut self, record: WalRecord) -> Result<(), RagloomError>;

    fn read_all(&self) -> Result<Vec<WalRecord>, RagloomError>;

    fn is_empty(&self) -> bool;
}

/// A WAL held in memory.
#[derive(Debug)]
pub struct InMemoryWal {
    records: Vec<WalRecord>,
}

impl View for InMemoryWal {
    type V = Seq<WalRecord>;

    closed spec fn view(&self) -> Seq<WalRecord> {
        self.records@
    }
}

impl InMemoryWal {
    /// An empty WAL.
    pub fn new() -> (w: Self)
        ensures
            w@ == Seq::<WalRecord>::empty(),
    {
        InMemoryWal { records: Vec::new() }
    }

    /// Appends `record`; never fails.
    pub fn append(&mut self, record: WalRecord) -> (r: Result<(), RagloomError>)
        ensures
            r is Ok,
            final(self)@ == old(self)@.push(record),
    {
        self.records.push(record);
        Ok(())
    }

    /// All records in append order; never fails.
    pub fn read_all(&self) -> (r: Result<Vec<WalRecord>, RagloomError>)
        ensures
            r matches Ok(v) && v@ == self@,
    {
        Ok(clone_records(self.records.as_slice()))
    }

    /// Whether nothing was appended.
    pub fn is_empty(&self) -> (b: bool)
        ensures
            b == (self@.len() == 0),
    {
        self.records.len() == 0
    }
}

impl WalStore for InMemoryWal {
    fn append(&mut self, record: WalRecord) -> (r: Result<(), RagloomError>)
        ensures
            r is Ok,
            final(self)@ == old(self)@.push(record),
    {
        InMemoryWal::append(self, record)
    }

    fn read_all(&self) -> (r: Result<Vec<WalRecord>, RagloomError>)
        ensures
            r matches Ok(v) && v@ == self@,
    {
        InMemoryWal::read_all(self)
    }

    fn is_empty(&self) -> (b: bool)
        ensures
            b == (self@.len() == 0),
    {
        InMemoryWal::is_empty(self)
    }
}

/// The view of a WAL holding `w` after [`InMemoryWal::append`] of each of
/// `rs`, in order.
pub open spec fn after_appends(w: Seq<WalRecord>, rs: Seq<WalRecord>) -> Seq<WalRecord>
    decreases rs.len(),
{
    if rs.len() == 0 {
        w
    } else {
        after_appends(w.push(rs[0]), rs.drop_first())
    }
}

/// An in-memory WAL gives back what was appended: after appending `rs` to
/// a new WAL, [`InMemoryWal::read_all`] returns exactly `rs`, in order, and
/// [`InMemoryWal::is_empty`] holds exactly when `rs` is empty.
pub proof fn law_wal_replays_appends_in_order(rs: Seq<WalRecord>)
    ensures
        after_appends(Seq::empty(), rs) == rs,
        (after_appends(Seq::empty(), rs).len() == 0) == (rs.len() == 0),
{
    lemma_after_appends(Seq::empty(), rs);
    assert(Seq::<WalRecord>::empty() + rs =~= rs);
}

proof fn lemma_after_appends(w: Seq<WalRecord>, rs: Seq<WalRecord>)
    ensures
        after_appends(w, rs) == w + rs,
    decreases rs.len(),
{
    if rs.len() == 0 {
        assert(w + rs =~= w);
    } else {
        lemma_after_appends(w.push(rs[0]), rs.drop_first());
        assert(w.push(rs[0]) + rs.drop_first() =~= w + rs);
    }
}

impl Clone for InMemoryWal {
    fn clone(&self) -> (c: Self)
        ensures
            c@ == self@,
    {
        InMemoryWal { records: clone_records(self.records.as_slice()) }
    }
}

/// The identifier of the version a fingerprint names.
pub open spec fn version_of(fp: FileFingerprint) -> Seq<u8> {
    blake3_digest(version_hash_input(fp))
}

/// Some `SinkAck` in `rs` acknowledges chunk `id`.
pub open spec fn chunk_acked(rs: Seq<WalRecord>, id: Seq<u8>) -> bool {
    exists|j: int| 0 <= j < rs.len() && (#[trigger] rs[j] matches WalRecord::SinkAck { chunk_id } && chunk_id@ == id)
}

/// Some `SinkAckV2` in `rs` acknowledges the file version `v`.
pub open spec fn version_acked(rs: Seq<WalRecord>, v: Seq<u8>) -> bool {
    exists|j: int| 0 <= j < rs.len() && (#[trigger] rs[j] matches WalRecord::SinkAckV2 { fingerprint } && version_of(fingerprint) == v)
}

/// Record `j` is a delete or a delete acknowledgement of path `p`.
pub open spec fn touches_delete(r: WalRecord, p: Seq<char>) -> bool {
    ||| r matches WalRecord::DeleteDocument { canonical_path } && canonical_path@ == p
    ||| r matches WalRecord::DeleteAck { canonical_path } && canonical_path@ == p
}

/// A later delete or delete acknowledgement of `p` follows index `i`.
pub open spec fn delete_superseded(rs: Seq<WalRecord>, i: int, p: Seq<char>) -> bool {
    exists|j: int| i < j < rs.len() && touches_delete(#[trigger] rs[j], p)
}

/// Record `i` of `rs` is work still owed after replaying all of `rs`.
pub open spec fn still_pending(rs: Seq<WalRecord>, i: int) -> bool {
    match rs[i] {
        WalRecord::WorkItem { chunk_id } => !chunk_acked(rs, chunk_id@),
        WalRecord::WorkItemV2 { fingerprint } => !version_acked(rs, version_of(fingerprint)),
        WalRecord::DeleteDocument { canonical_path } => !delete_superseded(rs, i, canonical_path@),
        _ => false,
    }
}

/// The owed records among the first `n`, in log order.
pub open spec fn pending_prefix(rs: Seq<WalRecord>, n: int) -> Seq<WalRecord>
    decreases n,
{
    if n <= 0 {
        Seq::empty()
    } else if still_pending(rs, n - 1) {
        pending_prefix(rs, n - 1).push(rs[n - 1])
    } else {
        pending_prefix(rs, n - 1)
    }
}

/// The owed records of `rs`, in log order.
pub open spec fn pending_work(rs: Seq<WalRecord>) -> Seq<WalRecord> {
    pending_prefix(rs, rs.len() as int)
}

/// Equality of two 32-byte identifiers.
pub fn id_eq(a: &[u8; 32], b: &[u8; 32]) -> (r: bool)
    ensures
        r == (a@ == b@),
{
    let mut i: usize = 0;
    while i < 32
        invariant
            i <= 32,
            a@.len() == 32,
            b@.len() == 32,
            forall|k: int| 0 <= k < i ==> a@[k] == b@[k],
        decreases 32 - i,
    {
        if a[i] != b[i] {
            return false;
        }
        i += 1;
    }
    assert(a@ =~= b@);
    true
}

fn contains_id(ids: &Vec<[u8; 32]>, x: &[u8; 32]) -> (r: bool)
    ensures
        r == exists|k: int| 0 <= k < ids@.len() && (#[trigger] ids@[k])@ == x@,
{
    let mut k: usize = 0;
    while k < ids.len()
        invariant
            k <= ids@.len(),
            forall|m: int| 0 <= m < k ==> (#[trigger] ids@[m])@ != x@,
        decreases ids@.len() - k,
    {
        if id_eq(&ids[k], x) {
            return true;
        }
        k += 1;
    }
    false
}

/// Whether a later record deletes or acknowledges the delete of `p`.
fn superseded_after(records: &[WalRecord], i: usize, p: &String) -> (r: bool)
    requires
        i < records@.len(),
    ensures
        r == delete_superseded(records@, i as int, p@),
{
    let n = records.len();
    assert(i < n);
    let mut j: usize = i + 1;
    while j < records.len()
        invariant
            i < j <= records@.len(),
            forall|m: int| i < m < j ==> !touches_delete(#[trigger] records@[m], p@),
        decreases records@.len() - j,
    {
        match &records[j] {
            WalRecord::DeleteDocument { canonical_path } => {
                if *canonical_path == *p {
                    return true;
                }
            },
            WalRecord::DeleteAck { canonical_path } => {
                if *canonical_path == *p {
                    return true;
                }
            },
            _ => {},
        }
        j += 1;
    }
    false
}

/// Work still owed after replaying `records`, in original append order:
/// work items whose chunk or file version has no acknowledgement anywhere in
/// the log, and deletes not followed by another delete or a delete
/// acknowledgement of the same path.
pub fn unacked_work_items(records: &[WalRecord]) -> (out: Vec<WalRecord>)
    ensures
        out@ == pending_work(records@),
{
    let ghost rs = records@;
    let mut acked_chunks: Vec<[u8; 32]> = Vec::new();
    let mut acked_versions: Vec<[u8; 32]> = Vec::new();
    let mut i: usize = 0;
    while i < records.len()
        invariant
            i <= rs.len(),
            rs == records@,
            forall|k: int| 0 <= k < acked_chunks@.len() ==> chunk_acked(rs, (#[trigger] acked_chunks@[k])@),
            forall|j: int| 0 <= j < i ==> (#[trigger] rs[j] matches WalRecord::SinkAck { chunk_id }
                ==> exists|k: int| 0 <= k < acked_chunks@.len() && (#[trigger] acked_chunks@[k])@ == chunk_id@),
            forall|k: int| 0 <= k < acked_versions@.len() ==> version_acked(rs, (#[trigger] acked_versions@[k])@),
            forall|j: int| 0 <= j < i ==> (#[trigger] rs[j] matches WalRecord::SinkAckV2 { fingerprint }
                ==> exists|k: int| 0 <= k < acked_versions@.len() && (#[trigger] acked_versions@[k])@ == version_of(fingerprint)),
        decreases rs.len() - i,
    {
        let ghost old_c = acked_chunks@;
        let ghost old_v = acked_versions@;
        match &records[i] {
            WalRecord::SinkAck { chunk_id } => {
                acked_chunks.push(*chunk_id);
                assert(acked_chunks@[acked_chunks@.len() - 1]@ == chunk_id@);
                assert(chunk_acked(rs, chunk_id@)) by {
                    assert(rs[i as int] matches WalRecord::SinkAck { chunk_id: c } && c@ == chunk_id@);
                }
            },
            WalRecord::SinkAckV2 { fingerprint } => {
                let v = file_version_id(fingerprint);
                acked_versions.push(v);
                assert(acked_versions@[acked_versions@.len() - 1]@ == version_of(*fingerprint));
                assert(version_acked(rs, version_of(*fingerprint))) by {
                    assert(rs[i as int] matches WalRecord::SinkAckV2 { fingerprint: f } && version_of(f) == version_of(*fingerprint));
                }
            },
            _ => {},
        }
        proof {
            assert forall|j: int| 0 <= j < i + 1 implies (#[trigger] rs[j] matches WalRecord::SinkAck { chunk_id }
                ==> exists|k: int| 0 <= k < acked_chunks@.len() && (#[trigger] acked_chunks@[k])@ == chunk_id@) by {
                if j < i {
                    if let WalRecord::SinkAck { chunk_id } = rs[j] {
                        let k = choose|k: int| 0 <= k < old_c.len() && (#[trigger] old_c[k])@ == chunk_id@;
                        assert(acked_chunks@[k] == old_c[k]);
                    }
                }
            }
            assert forall|j: int| 0 <= j < i + 1 implies (#[trigger] rs[j] matches WalRecord::SinkAckV2 { fingerprint }
                ==> exists|k: int| 0 <= k < acked_versions@.len() && (#[trigger] acked_versions@[k])@ == version_of(fingerprint)) by {
                if j < i {
                    if let WalRecord::SinkAckV2 { fingerprint } = rs[j] {
                        let k = choose|k: int| 0 <= k < old_v.len() && (#[trigger] old_v[k])@ == version_of(fingerprint);
                        assert(acked_versions@[k] == old_v[k]);
                    }
                }
            }
        }
        i += 1;
    }
    let mut out: Vec<WalRecord> = Vec::new();
    let mut i: usize = 0;
    while i < records.len()
        invariant
            i <= rs.len(),
            rs == records@,
            forall|k: int| 0 <= k < acked_chunks@.len() ==> chunk_acked(rs, (#[trigger] acked_chunks@[k])@),
            forall|j: int| 0 <= j < rs.len() ==> (#[trigger] rs[j] matches WalRecord::SinkAck { chunk_id }
                ==> exists|k: int| 0 <= k < acked_chunks@.len() && (#[trigger] acked_chunks@[k])@ == chunk_id@),
            forall|k: int| 0 <= k < acked_versions@.len() ==> version_acked(rs, (#[trigger] acked_versions@[k])@),
            forall|j: int| 0 <= j < rs.len() ==> (#[trigger] rs[j] matches WalRecord::SinkAckV2 { fingerprint }
                ==> exists|k: int| 0 <= k < acked_versions@.len() && (#[trigger] acked_versions@[k])@ == version_of(fingerprint)),
            out@ == pending_prefix(rs, i as int),
        decreases rs.len() - i,
    {
        let keep = match &records[i] {
            WalRecord::WorkItem { chunk_id } => {
                let found = contains_id(&acked_chunks, chunk_id);
                proof {
                    if chunk_acked(rs, chunk_id@) {
                        let j = choose|j: int| 0 <= j < rs.len() && (#[trigger] rs[j] matches WalRecord::SinkAck { chunk_id: c } && c@ == chunk_id@);
                        assert(rs[j] matches WalRecord::SinkAck { chunk_id } );
                    }
                    if found {
                        let k = choose|k: int| 0 <= k < acked_chunks@.len() && (#[trigger] acked_chunks@[k])@ == chunk_id@;
                        assert(chunk_acked(rs, acked_chunks@[k]@));
                    }
                }
                !found
            },
            WalRecord::WorkItemV2 { fingerprint } => {
                let v = file_version_id(fingerprint);
                let found = contains_id(&acked_versions, &v);
                proof {
                    if version_acked(rs, version_of(*fingerprint)) {
                        let j = choose|j: int| 0 <= j < rs.len() && (#[trigger] rs[j] matches WalRecord::SinkAckV2 { fingerprint: f } && version_of(f) == version_of(*fingerprint));
                        assert(rs[j] matches WalRecord::SinkAckV2 { fingerprint });
                    }
                    if found {
                        let k = choose|k: int| 0 <= k < acked_versions@.len() && (#[trigger] acked_versions@[k])@ == v@;
                        assert(version_acked(rs, acked_versions@[k]@));
                    }
                }
                !found
            },
            WalRecord::DeleteDocument { canonical_path } => {
                !superseded_after(records, i, canonical_path)
            },
            _ => false,
        };
        assert(keep == still_pending(rs, i as int));
        if keep {
            out.push(records[i].clone());
        }
        i += 1;
    }
    out
}

/// The canonical paths known to be live after replaying the first `n`
/// records: a file-version record adds its path, a delete or delete
/// acknowledgement removes it. Chunk-level records carry no path.
pub open spec fn live_prefix(rs: Seq<WalRecord>, n: int) -> Set<Seq<char>>
    decreases n,
{
    if n <= 0 {
        Set::empty()
    } else {
        let s = live_prefix(rs, n - 1);
        match rs[n - 1] {
            WalRecord::WorkItemV2 { fingerprint } => s.insert(fingerprint.canonical_path@),
            WalRecord::SinkAckV2 { fingerprint } => s.insert(fingerprint.canonical_path@),
            WalRecord::DeleteDocument { canonical_path } => s.remove(canonical_path@),
            WalRecord::DeleteAck { canonical_path } => s.remove(canonical_path@),
            _ => s,
        }
    }
}

pub open spec fn live_paths(rs: Seq<WalRecord>) -> Set<Seq<char>> {
    live_prefix(rs, rs.len() as int)
}

/// `v` lists the paths of `s`, each exactly once.
pub open spec fn lists_set(v: Seq<String>, s: Set<Seq<char>>) -> bool {
    &&& forall|p: Seq<char>| s.contains(p) <==> exists|k: int| 0 <= k < v.len() && (#[trigger] v[k])@ == p
    &&& forall|a: int, b: int| 0 <= a < b < v.len() ==> (#[trigger] v[a])@ != (#[trigger] v[b])@
}

fn find_path(v: &Vec<String>, p: &String) -> (r: Option<usize>)
    ensures
        r matches Some(k) ==> k < v@.len() && v@[k as int]@ == p@,
        r is None ==> forall|k: int| 0 <= k < v@.len() ==> (#[trigger] v@[k])@ != p@,
{
    let mut k: usize = 0;
    while k < v.len()
        invariant
            k <= v@.len(),
            forall|m: int| 0 <= m < k ==> (#[trigger] v@[m])@ != p@,
        decreases v@.len() - k,
    {
        if v[k] == *p {
            return Some(k);
        }
        k += 1;
    }
    None
}

fn live_insert(live: &mut Vec<String>, p: &String, Ghost(s): Ghost<Set<Seq<char>>>)
    requires
        lists_set(old(live)@, s),
    ensures
        lists_set(final(live)@, s.insert(p@)),
{
    match find_path(live, p) {
        Some(_) => {
            assert(s.insert(p@) =~= s);
        },
        None => {
            let ghost before = live@;
            live.push(p.clone());
            assert forall|q: Seq<char>| s.insert(p@).contains(q) <== exists|k: int| 0 <= k < live@.len() && (#[trigger] live@[k])@ == q by {
                if exists|k: int| 0 <= k < live@.len() && (#[trigger] live@[k])@ == q {
                    let k = choose|k: int| 0 <= k < live@.len() && (#[trigger] live@[k])@ == q;
                    if k < before.len() {
                        assert(before[k]@ == q);
                    }
                }
            }
            assert forall|q: Seq<char>| s.insert(p@).contains(q) ==> exists|k: int| 0 <= k < live@.len() && (#[trigger] live@[k])@ == q by {
                if q == p@ {
                    assert(live@[before.len() as int]@ == q);
                } else if s.contains(q) {
                    let k = choose|k: int| 0 <= k < before.len() && (#[trigger] before[k])@ == q;
                    assert(live@[k]@ == q);
                }
            }
        },
    }
}

fn live_remove(live: &mut Vec<String>, p: &String, Ghost(s): Ghost<Set<Seq<char>>>)
    requires
        lists_set(old(live)@, s),
    ensures
        lists_set(final(live)@, s.remove(p@)),
{
    match find_path(live, p) {
        None => {
            assert(s.remove(p@) =~= s);
        },
        Some(k) => {
            let ghost before = live@;
            live.remove(k);
            assert forall|q: Seq<char>| s.remove(p@).contains(q) <==> exists|m: int| 0 <= m < live@.len() && (#[trigger] live@[m])@ == q by {
                if s.remove(p@).contains(q) {
                    let m = choose|m: int| 0 <= m < before.len() && (#[trigger] before[m])@ == q;
                    if m < k {
                        assert(live@[m]@ == q);
                    } else {
                        assert(m != k);
                        assert(live@[m - 1]@ == q);
                    }
                }
                if exists|m: int| 0 <= m < live@.len() && (#[trigger] live@[m])@ == q {
                    let m = choose|m: int| 0 <= m < live@.len() && (#[trigger] live@[m])@ == q;
                    if m < k {
                        assert(before[m]@ == q);
                        assert(before[m]@ != before[k as int]@);
                    } else {
                        assert(before[m + 1]@ == q);
                        assert(before[m + 1]@ != before[k as int]@);
                    }
                }
            }
            assert forall|a: int, b: int| 0 <= a < b < live@.len() implies (#[trigger] live@[a])@ != (#[trigger] live@[b])@ by {
                let a0 = if a < k { a } else { a + 1 };
                let b0 = if b < k { b } else { b + 1 };
                assert(live@[a] == before[a0]);
                assert(live@[b] == before[b0]);
            }
        },
    }
}

/// The canonical paths last known to exist, each listed once.
pub fn known_live_document_paths(records: &[WalRecord]) -> (live: Vec<String>)
    ensures
        lists_set(live@, live_paths(records@)),
{
    let ghost rs = records@;
    let mut live: Vec<String> = Vec::new();
    let mut i: usize = 0;
    while i < records.len()
        invariant
            i <= rs.len(),
            rs == records@,
            lists_set(live@, live_prefix(rs, i as int)),
        decreases rs.len() - i,
    {
        let ghost s = live_prefix(rs, i as int);
        match &records[i] {
            WalRecord::WorkItemV2 { fingerprint } => {
                live_insert(&mut live, &fingerprint.canonical_path, Ghost(s));
            },
            WalRecord::SinkAckV2 { fingerprint } => {
                live_insert(&mut live, &fingerprint.canonical_path, Ghost(s));
            },
            WalRecord::DeleteDocument { canonical_path } => {
                live_remove(&mut live, canonical_path, Ghost(s));
            },
            WalRecord::DeleteAck { canonical_path } => {
                live_remove(&mut live, canonical_path, Ghost(s));
            },
            _ => {},
        }
        i += 1;
    }
    live
}

/// Entry `k` of the owed prefix is some owed record `i < n` of the log.
pub open spec fn drawn_from(rs: Seq<WalRecord>, n: int, k: int) -> bool {
    exists|i: int| 0 <= i < n && pending_prefix(rs, n)[k] == rs[i] && #[trigger] still_pending(rs, i)
}

proof fn lemma_pending_members(rs: Seq<WalRecord>, n: int)
    requires
        0 <= n <= rs.len(),
    ensures
        forall|k: int| 0 <= k < pending_prefix(rs, n).len() ==> #[trigger] drawn_from(rs, n, k),
    decreases n,
{
    if n > 0 {
        lemma_pending_members(rs, n - 1);
        assert forall|k: int| 0 <= k < pending_prefix(rs, n).len() implies #[trigger] drawn_from(rs, n, k) by {
            if k < pending_prefix(rs, n - 1).len() {
                assert(drawn_from(rs, n - 1, k));
                assert(pending_prefix(rs, n)[k] == pending_prefix(rs, n - 1)[k]);
                let i = choose|i: int| 0 <= i < n - 1 && pending_prefix(rs, n - 1)[k] == rs[i] && #[trigger] still_pending(rs, i);
                assert(0 <= i < n && pending_prefix(rs, n)[k] == rs[i] && still_pending(rs, i));
            } else {
                assert(still_pending(rs, n - 1));
                assert(pending_prefix(rs, n)[k] == rs[n - 1]);
            }
        }
    }
}

/// Once a file version is acknowledged, no work item of that version is owed
/// any more, wherever it stood in the log.
pub proof fn law_acked_version_is_not_pending(rs: Seq<WalRecord>, fp: FileFingerprint)
    ensures
        forall|k: int| 0 <= k < pending_work(rs.push(WalRecord::SinkAckV2 { fingerprint: fp })).len()
            ==> !(#[trigger] pending_work(rs.push(WalRecord::SinkAckV2 { fingerprint: fp }))[k] matches WalRecord::WorkItemV2 { fingerprint }
                && version_of(fingerprint) == version_of(fp)),
{
    let rs2 = rs.push(WalRecord::SinkAckV2 { fingerprint: fp });
    lemma_pending_members(rs2, rs2.len() as int);
    let pw = pending_work(rs2);
    assert forall|k: int| 0 <= k < pw.len() implies !(#[trigger] pw[k] matches WalRecord::WorkItemV2 { fingerprint }
        && version_of(fingerprint) == version_of(fp)) by {
        assert(drawn_from(rs2, rs2.len() as int, k));
        let i = choose|i: int| 0 <= i < rs2.len() && pw[k] == rs2[i] && #[trigger] still_pending(rs2, i);
        if let WalRecord::WorkItemV2 { fingerprint } = pw[k] {
            if version_of(fingerprint) == version_of(fp) {
                assert(rs2[rs2.len() - 1] matches WalRecord::SinkAckV2 { fingerprint: f } && version_of(f) == version_of(fingerprint));
                assert(version_acked(rs2, version_of(fingerprint)));
            }
        }
    }
}

/// Once a delete of a path is acknowledged, no earlier delete of that path is
/// owed any more.
pub proof fn law_acked_delete_is_not_pending(rs: Seq<WalRecord>, path: String)
    ensures
        forall|k: int| 0 <= k < pending_work(rs.push(WalRecord::DeleteAck { canonical_path: path })).len()
            ==> !(#[trigger] pending_work(rs.push(WalRecord::DeleteAck { canonical_path: path }))[k] matches WalRecord::DeleteDocument { canonical_path }
                && canonical_path@ == path@),
{
    let rs2 = rs.push(WalRecord::DeleteAck { canonical_path: path });
    lemma_pending_members(rs2, rs2.len() as int);
    let pw = pending_work(rs2);
    assert forall|k: int| 0 <= k < pw.len() implies !(#[trigger] pw[k] matches WalRecord::DeleteDocument { canonical_path }
        && canonical_path@ == path@) by {
        assert(drawn_from(rs2, rs2.len() as int, k));
        let i = choose|i: int| 0 <= i < rs2.len() && pw[k] == rs2[i] && #[trigger] still_pending(rs2, i);
        if let WalRecord::DeleteDocument { canonical_path } = pw[k] {
            if canonical_path@ == path@ {
                assert(touches_delete(rs2[rs2.len() - 1], path@));
                assert(delete_superseded(rs2, i, canonical_path@));
            }
        }
    }
}

/// Enqueuing a file version makes its path live; enqueuing a delete makes it
/// not live.
pub proof fn law_live_paths_follow_last_event(rs: Seq<WalRecord>, fp: FileFingerprint, path: String)
    ensures
        live_paths(rs.push(WalRecord::WorkItemV2 { fingerprint: fp })).contains(fp.canonical_path@),
        !live_paths(rs.push(WalRecord::DeleteDocument { canonical_path: path })).contains(path@),
{
    let a = rs.push(WalRecord::WorkItemV2 { fingerprint: fp });
    let b = rs.push(WalRecord::DeleteDocument { canonical_path: path });
    assert(live_prefix(a, rs.len() as int) == live_prefix(rs, rs.len() as int)) by {
        lemma_live_prefix_extends(rs, a, rs.len() as int);
    }
    assert(live_prefix(b, rs.len() as int) == live_prefix(rs, rs.len() as int)) by {
        lemma_live_prefix_extends(rs, b, rs.len() as int);
    }
}

proof fn lemma_live_prefix_extends(rs: Seq<WalRecord>, ext: Seq<WalRecord>, n: int)
    requires
        0 <= n <= rs.len(),
        rs.len() <= ext.len(),
        forall|i: int| 0 <= i < rs.len() ==> ext[i] == rs[i],
    ensures
        live_prefix(ext, n) == live_prefix(rs, n),
    decreases n,
{
    if n > 0 {
        lemma_live_prefix_extends(rs, ext, n - 1);
    }
}

} // verus!
