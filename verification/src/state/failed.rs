//! Journal of work that exhausted its retries.
//!
//! Exhausted work is recorded with an identifier; a later `Requeued` record
//! releases it. Replay yields the work still parked, ordered by identifier.
use vstd::prelude::*;
use crate::error::{RagloomError, RagloomErrorKind};
use crate::state::wal::WalRecord;
use crate::text::{chars_of, string_from_range};

verus! {

/// Classification of the failure that exhausted a work item.
#[derive(Debug, Clone, Copy, PartialEq, Eq, Structural)]
pub enum FailedWorkFailureKind {
    InvalidInput,
    Io,
    Config,
    Internal,
    Embed,
    Sink,
    State,
}

impl FailedWorkFailureKind {
    /// The failure kind recorded for an error of kind `kind` (one for one).
    pub fn from_error_kind(kind: RagloomErrorKind) -> (k: Self)
        ensures
            k == failure_kind_of(kind),
    {
        match kind {
            RagloomErrorKind::InvalidInput => FailedWorkFailureKind::InvalidInput,
            RagloomErrorKind::Io => FailedWorkFailureKind::Io,
            RagloomErrorKind::Config => FailedWorkFailureKind::Config,
            RagloomErrorKind::Internal => FailedWorkFailureKind::Internal,
            RagloomErrorKind::Embed => FailedWorkFailureKind::Embed,
            RagloomErrorKind::Sink => FailedWorkFailureKind::Sink,
            RagloomErrorKind::State => FailedWorkFailureKind::State,
        }
    }
}

pub open spec fn failure_kind_of(kind: RagloomErrorKind) -> FailedWorkFailureKind {
    match kind {
        RagloomErrorKind::InvalidInput => FailedWorkFailureKind::InvalidInput,
        RagloomErrorKind::Io => FailedWorkFailureKind::Io,
        RagloomErrorKind::Config => FailedWorkFailureKind::Config,
        RagloomErrorKind::Internal => FailedWorkFailureKind::Internal,
        RagloomErrorKind::Embed => FailedWorkFailureKind::Embed,
        RagloomErrorKind::Sink => FailedWorkFailureKind::Sink,
        RagloomErrorKind::State => FailedWorkFailureKind::State,
    }
}

/// Why a work item stopped being retried.
#[derive(Debug, Clone, Copy, PartialEq, Eq, Structural)]
pub enum FailedWorkTerminalReason {
    RetryExhausted,
    NonRetryable,
}

/// A record of the failed-work journal.
#[derive(Debug, PartialEq, Eq)]
pub enum FailedWorkRecord {
    Exhausted {
        id: u64,
        work: WalRecord,
        failure_kind: FailedWorkFailureKind,
        terminal_reason: FailedWorkTerminalReason,
        attempts: u32,
    },
    Requeued { exhausted_id: u64 },
}

impl Clone for FailedWorkRecord {
    fn clone(&self) -> (c: Self)
        ensures
            c == *self,
    {
        match self {
            FailedWorkRecord::Exhausted { id, work, failure_kind, terminal_reason, attempts } => {
                FailedWorkRecord::Exhausted {
                    id: *id,
                    work: work.clone(),
                    failure_kind: *failure_kind,
                    terminal_reason: *terminal_reason,
                    attempts: *attempts,
                }
            },
            FailedWorkRecord::Requeued { exhausted_id } => FailedWorkRecord::Requeued { exhausted_id: *exhausted_id },
        }
    }
}

/// Exhausted work that has not been requeued.
#[derive(Debug, PartialEq, Eq)]
pub struct PendingFailedWork {
    pub id: u64,
    pub work: WalRecord,
    pub failure_kind: FailedWorkFailureKind,
    pub terminal_reason: FailedWorkTerminalReason,
    pub attempts: u32,
}

impl Clone for PendingFailedWork {
    fn clone(&self) -> (c: Self)
        ensures
            c == *self,
    {
        PendingFailedWork {
            id: self.id,
            work: self.work.clone(),
            failure_kind: self.failure_kind,
            terminal_reason: self.terminal_reason,
            attempts: self.attempts,
        }
    }
}

/// Ordered append and replay of failed-work records.
pub trait FailedWorkStore: Send {
    fn append(&mut self, record: FailedWorkRecord) -> Result<(), RagloomError>;

    fn read_all(&self) -> Result<Vec<FailedWorkRecord>, RagloomError>;

    fn is_empty(&self) -> bool;
}

fn clone_failed_records(rs: &[FailedWorkRecord]) -> (v: Vec<FailedWorkRecord>)
    ensures
        v@ == rs@,
{
    let mut v: Vec<FailedWorkRecord> = Vec::new();
    let mut i: usize = 0;
    while i < rs.len()
        invariant
            i <= rs@.len(),
            v@ == rs@.take(i as int),
        decreases rs@.len() - i,
    {
        v.push(rs[i].clone());
        assert(rs@.take(i + 1) =~= rs@.take(i as int).push(rs@[i as int]));
        i += 1;
    }
    assert(rs@.take(rs@.len() as int) =~= rs@);
    v
}

/// A failed-work journal held in memory.
#[derive(Debug)]
pub struct InMemoryFailedWorkStore {
    records: Vec<FailedWorkRecord>,
}

impl View for InMemoryFailedWorkStore {
    type V = Seq<FailedWorkRecord>;

    closed spec fn view(&self) -> Seq<FailedWorkRecord> {
        self.records@
    }
}

impl InMemoryFailedWorkStore {
    pub fn new() -> (s: Self)
        ensures
            s@ == Seq::<FailedWorkRecord>::empty(),
    {
        InMemoryFailedWorkStore { records: Vec::new() }
    }

    /// Appends `record`; never fails.
    pub fn append(&mut self, record: FailedWorkRecord) -> (r: Result<(), RagloomError>)
        ensures
            r is Ok,
            final(self)@ == old(self)@.push(record),
    {
        self.records.push(record);
        Ok(())
    }

    /// All records in append order; never fails.
    pub fn read_all(&self) -> (r: Result<Vec<FailedWorkRecord>, RagloomError>)
        ensures
            r matches Ok(v) && v@ == self@,
    {
        Ok(clone_failed_records(self.records.as_slice()))
    }

    pub fn is_empty(&self) -> (b: bool)
        ensures
            b == (self@.len() == 0),
    {
        self.records.len() == 0
    }
}

impl FailedWorkStore for InMemoryFailedWorkStore {
    fn append(&mut self, record: FailedWorkRecord) -> (r: Result<(), RagloomError>)
        ensures
            r is Ok,
            final(self)@ == old(self)@.push(record),
    {
        InMemoryFailedWorkStore::append(self, record)
    }

    fn read_all(&self) -> (r: Result<Vec<FailedWorkRecord>, RagloomError>)
        ensures
            r matches Ok(v) && v@ == self@,
    {
        InMemoryFailedWorkStore::read_all(self)
    }

    fn is_empty(&self) -> (b: bool)
        ensures
            b == (self@.len() == 0),
    {
        InMemoryFailedWorkStore::is_empty(self)
    }
}

/// The parked work after replaying the first `n` records, keyed by id: an
/// `Exhausted` record (re)parks its id, a `Requeued` record releases it.
pub open spec fn pending_map(rs: Seq<FailedWorkRecord>, n: int) -> Map<u64, PendingFailedWork>
    decreases n,
{
    if n <= 0 {
        Map::empty()
    } else {
        let m = pending_map(rs, n - 1);
        match rs[n - 1] {
            FailedWorkRecord::Exhausted { id, work, failure_kind, terminal_reason, attempts } => m.insert(
                id,
                PendingFailedWork { id, work, failure_kind, terminal_reason, attempts },
            ),
            FailedWorkRecord::Requeued { exhausted_id } => m.remove(exhausted_id),
        }
    }
}

/// `v` lists the entries of `m` in strictly increasing id order.
pub open spec fn lists_by_id(v: Seq<PendingFailedWork>, m: Map<u64, PendingFailedWork>) -> bool {
    &&& forall|a: int, b: int| 0 <= a < b < v.len() ==> (#[trigger] v[a]).id < (#[trigger] v[b]).id
    &&& forall|k: int| 0 <= k < v.len() ==> m.contains_key((#[trigger] v[k]).id) && m[v[k].id] == v[k]
    &&& forall|id: u64| #[trigger] m.contains_key(id) ==> exists|k: int| 0 <= k < v.len() && (#[trigger] v[k]).id == id
}

/// First position whose id is at least `id`.
fn lower_bound(v: &Vec<PendingFailedWork>, id: u64) -> (pos: usize)
    requires
        forall|a: int, b: int| 0 <= a < b < v@.len() ==> (#[trigger] v@[a]).id < (#[trigger] v@[b]).id,
    ensures
        pos <= v@.len(),
        forall|k: int| 0 <= k < pos ==> (#[trigger] v@[k]).id < id,
        forall|k: int| pos <= k < v@.len() ==> (#[trigger] v@[k]).id >= id,
{
    let mut pos: usize = 0;
    while pos < v.len() && v[pos].id < id
        invariant
            pos <= v@.len(),
            forall|a: int, b: int| 0 <= a < b < v@.len() ==> (#[trigger] v@[a]).id < (#[trigger] v@[b]).id,
            forall|k: int| 0 <= k < pos ==> (#[trigger] v@[k]).id < id,
        decreases v@.len() - pos,
    {
        pos += 1;
    }
    proof {
        assert forall|k: int| pos <= k < v@.len() implies (#[trigger] v@[k]).id >= id by {
            if k > pos {
                assert(v@[pos as int].id < v@[k].id);
            }
        }
    }
    pos
}

fn park(v: &mut Vec<PendingFailedWork>, p: PendingFailedWork, Ghost(m): Ghost<Map<u64, PendingFailedWork>>)
    requires
        lists_by_id(old(v)@, m),
    ensures
        lists_by_id(final(v)@, m.insert(p.id, p)),
{
    let ghost old_v = v@;
    let pos = lower_bound(v, p.id);
    let ghost pid = p.id;
    if pos < v.len() && v[pos].id == p.id {
        v.set(pos, p);
        proof {
            let m2 = m.insert(pid, v@[pos as int]);
            assert forall|k: int| 0 <= k < v@.len() implies m2.contains_key((#[trigger] v@[k]).id) && m2[v@[k].id] == v@[k] by {
                if k != pos {
                    assert(v@[k] == old_v[k]);
                    assert(old_v[k].id != pid) by {
                        if k < pos { assert(old_v[k].id < old_v[pos as int].id); } else { assert(old_v[pos as int].id < old_v[k].id); }
                    }
                }
            }
            assert forall|id: u64| #[trigger] m2.contains_key(id) implies exists|k: int| 0 <= k < v@.len() && (#[trigger] v@[k]).id == id by {
                if id == pid {
                    assert(v@[pos as int].id == id);
                } else {
                    let k = choose|k: int| 0 <= k < old_v.len() && (#[trigger] old_v[k]).id == id;
                    assert(v@[k] == old_v[k]);
                }
            }
            assert forall|a: int, b: int| 0 <= a < b < v@.len() implies (#[trigger] v@[a]).id < (#[trigger] v@[b]).id by {
                assert(v@[a].id == old_v[a].id);
                assert(v@[b].id == old_v[b].id);
            }
        }
    } else {
        v.insert(pos, p);
        proof {
            let m2 = m.insert(pid, v@[pos as int]);
            assert forall|k: int| 0 <= k < v@.len() implies m2.contains_key((#[trigger] v@[k]).id) && m2[v@[k].id] == v@[k] by {
                if k < pos {
                    assert(v@[k] == old_v[k]);
                } else if k > pos {
                    assert(v@[k] == old_v[k - 1]);
                    assert(old_v[k - 1].id > pid);
                }
            }
            assert forall|id: u64| #[trigger] m2.contains_key(id) implies exists|k: int| 0 <= k < v@.len() && (#[trigger] v@[k]).id == id by {
                if id == pid {
                    assert(v@[pos as int].id == id);
                } else {
                    let k = choose|k: int| 0 <= k < old_v.len() && (#[trigger] old_v[k]).id == id;
                    if k < pos {
                        assert(v@[k] == old_v[k]);
                    } else {
                        assert(v@[k + 1] == old_v[k]);
                    }
                }
            }
            assert forall|a: int, b: int| 0 <= a < b < v@.len() implies (#[trigger] v@[a]).id < (#[trigger] v@[b]).id by {
                let a0 = if a < pos { a } else { a - 1 };
                let b0 = if b < pos { b } else { b - 1 };
                if a == pos {
                    assert(v@[b] == old_v[b0]);
                    assert(old_v[b0].id >= pid);
                    assert(old_v[b0].id != pid) by {
                        if b0 == pos {
                        } else {
                            assert(old_v[pos as int].id < old_v[b0].id);
                        }
                    }
                } else if b == pos {
                    assert(v@[a] == old_v[a0]);
                } else {
                    assert(v@[a] == old_v[a0]);
                    assert(v@[b] == old_v[b0]);
                }
            }
        }
    }
}

fn release(v: &mut Vec<PendingFailedWork>, id: u64, Ghost(m): Ghost<Map<u64, PendingFailedWork>>)
    requires
        lists_by_id(old(v)@, m),
    ensures
        lists_by_id(final(v)@, m.remove(id)),
{
    let ghost old_v = v@;
    let pos = lower_bound(v, id);
    if pos < v.len() && v[pos].id == id {
        v.remove(pos);
        proof {
            let m2 = m.remove(id);
            assert forall|k: int| 0 <= k < v@.len() implies m2.contains_key((#[trigger] v@[k]).id) && m2[v@[k].id] == v@[k] by {
                if k < pos {
                    assert(v@[k] == old_v[k]);
                } else {
                    assert(v@[k] == old_v[k + 1]);
                    assert(old_v[pos as int].id < old_v[k + 1].id);
                }
            }
            assert forall|i: u64| #[trigger] m2.contains_key(i) implies exists|k: int| 0 <= k < v@.len() && (#[trigger] v@[k]).id == i by {
                let k = choose|k: int| 0 <= k < old_v.len() && (#[trigger] old_v[k]).id == i;
                if k < pos {
                    assert(v@[k] == old_v[k]);
                } else {
                    assert(k != pos);
                    assert(v@[k - 1] == old_v[k]);
                }
            }
            assert forall|a: int, b: int| 0 <= a < b < v@.len() implies (#[trigger] v@[a]).id < (#[trigger] v@[b]).id by {
                let a0 = if a < pos { a } else { a + 1 };
                let b0 = if b < pos { b } else { b + 1 };
                assert(v@[a] == old_v[a0]);
                assert(v@[b] == old_v[b0]);
            }
        }
    } else {
        proof {
            assert(!m.contains_key(id)) by {
                if m.contains_key(id) {
                    let k = choose|k: int| 0 <= k < old_v.len() && (#[trigger] old_v[k]).id == id;
                }
            }
            assert(m.remove(id) =~= m);
        }
    }
}

/// The work still parked after replaying `records`, ordered by id: for each
/// id, the last `Exhausted` record, unless a `Requeued` record followed it.
pub fn pending_failed_work(records: &[FailedWorkRecord]) -> (out: Vec<PendingFailedWork>)
    ensures
        lists_by_id(out@, pending_map(records@, records@.len() as int)),
{
    let ghost rs = records@;
    let mut out: Vec<PendingFailedWork> = Vec::new();
    let mut i: usize = 0;
    while i < records.len()
        invariant
            i <= rs.len(),
            rs == records@,
            lists_by_id(out@, pending_map(rs, i as int)),
        decreases rs.len() - i,
    {
        let ghost m = pending_map(rs, i as int);
        match &records[i] {
            FailedWorkRecord::Exhausted { id, work, failure_kind, terminal_reason, attempts } => {
                let p = PendingFailedWork {
                    id: *id,
                    work: work.clone(),
                    failure_kind: *failure_kind,
                    terminal_reason: *terminal_reason,
                    attempts: *attempts,
                };
                park(&mut out, p, Ghost(m));
            },
            FailedWorkRecord::Requeued { exhausted_id } => {
                release(&mut out, *exhausted_id, Ghost(m));
            },
        }
        i += 1;
    }
    out
}

/// The largest id of an `Exhausted` record among the first `n`, or 0.
pub open spec fn max_exhausted_prefix(rs: Seq<FailedWorkRecord>, n: int) -> u64
    decreases n,
{
    if n <= 0 {
        0
    } else {
        let m = max_exhausted_prefix(rs, n - 1);
        match rs[n - 1] {
            FailedWorkRecord::Exhausted { id, .. } => if id > m { id } else { m },
            FailedWorkRecord::Requeued { .. } => m,
        }
    }
}

/// The largest id of an `Exhausted` record, or 0 when there is none.
pub fn max_exhausted_id(records: &[FailedWorkRecord]) -> (m: u64)
    ensures
        m == max_exhausted_prefix(records@, records@.len() as int),
{
    let mut m: u64 = 0;
    let mut i: usize = 0;
    while i < records.len()
        invariant
            i <= records@.len(),
            m == max_exhausted_prefix(records@, i as int),
        decreases records@.len() - i,
    {
        match &records[i] {
            FailedWorkRecord::Exhausted { id, .. } => {
                if *id > m {
                    m = *id;
                }
            },
            FailedWorkRecord::Requeued { .. } => {},
        }
        i += 1;
    }
    m
}

/// One more than the largest exhausted id (1 for an empty journal).
pub fn next_failed_work_id(records: &[FailedWorkRecord]) -> (id: u64)
    requires
        max_exhausted_prefix(records@, records@.len() as int) < u64::MAX,
    ensures
        id == max_exhausted_prefix(records@, records@.len() as int) + 1,
{
    max_exhausted_id(records) + 1
}

/// `s` without its trailing `/` characters.
pub open spec fn strip_trailing_slashes(s: Seq<char>) -> Seq<char>
    decreases s.len(),
{
    if s.len() > 0 && s.last() == '/' {
        strip_trailing_slashes(s.drop_last())
    } else {
        s
    }
}

/// Index of the last `/` of `s` before position `n`, or -1.
pub open spec fn last_slash_before(s: Seq<char>, n: int) -> int
    decreases n,
{
    if n <= 0 {
        -1
    } else if s[n - 1] == '/' {
        n - 1
    } else {
        last_slash_before(s, n - 1)
    }
}

/// The parent directory of a path, as `std::path::Path::parent` reports it
/// for `/`-separated paths: `None` for an empty path or the root, `Some("")`
/// for a single relative component.
pub open spec fn parent_dir(s: Seq<char>) -> Option<Seq<char>> {
    let t = strip_trailing_slashes(s);
    if t.len() == 0 {
        None
    } else {
        let k = last_slash_before(t, t.len() as int);
        if k < 0 {
            Some(Seq::empty())
        } else {
            let q = strip_trailing_slashes(t.take(k));
            if q.len() == 0 {
                Some(seq!['/'])
            } else {
                Some(q)
            }
        }
    }
}

/// Where the failed-work journal lives: `failed.ndjson` beside the WAL.
pub open spec fn failed_work_path(state_path: Seq<char>) -> Seq<char> {
    match parent_dir(state_path) {
        Some(p) => if p.len() == 0 {
            "failed.ndjson"@
        } else if p == seq!['/'] {
            "/failed.ndjson"@
        } else {
            p + "/failed.ndjson"@
        },
        None => "failed.ndjson"@,
    }
}

pub proof fn lemma_stripped_last(s: Seq<char>)
    ensures
        strip_trailing_slashes(s).len() == 0 || strip_trailing_slashes(s).last() != '/',
    decreases s.len(),
{
    if s.len() > 0 && s.last() == '/' {
        lemma_stripped_last(s.drop_last());
    }
}

pub fn strip_slashes_end(c: &Vec<char>, n: usize) -> (m: usize)
    requires
        n <= c@.len(),
    ensures
        m <= n,
        c@.take(m as int) == strip_trailing_slashes(c@.take(n as int)),
{
    let mut m = n;
    while m > 0 && c[m - 1] == '/'
        invariant
            m <= n <= c@.len(),
            strip_trailing_slashes(c@.take(m as int)) == strip_trailing_slashes(c@.take(n as int)),
        decreases m,
    {
        assert(c@.take(m as int).drop_last() =~= c@.take(m - 1));
        m -= 1;
    }
    m
}

pub fn last_slash(c: &Vec<char>, n: usize) -> (k: Option<usize>)
    requires
        n <= c@.len(),
    ensures
        k is None ==> last_slash_before(c@.take(n as int), n as int) == -1,
        k matches Some(i) ==> i < n && last_slash_before(c@.take(n as int), n as int) == i,
{
    let ghost t = c@.take(n as int);
    let mut m = n;
    while m > 0 && c[m - 1] != '/'
        invariant
            m <= n <= c@.len(),
            t == c@.take(n as int),
            last_slash_before(t, m as int) == last_slash_before(t, n as int),
        decreases m,
    {
        m -= 1;
    }
    if m == 0 {
        None
    } else {
        Some(m - 1)
    }
}

/// The failed-work journal path for a WAL path, see [`failed_work_path`].
pub fn failed_work_path_from_state_path(path: &str) -> (r: String)
    ensures
        r@ == failed_work_path(path@),
{
    let c = chars_of(path);
    let n = c.len();
    let t = strip_slashes_end(&c, n);
    assert(c@.take(n as int) =~= path@);
    let mut out = String::new();
    if t == 0 {
        out.push_str("failed.ndjson");
    } else {
        match last_slash(&c, t) {
            None => {
                out.push_str("failed.ndjson");
            },
            Some(k) => {
                let q = strip_slashes_end(&c, k);
                proof {
                    assert(c@.take(t as int).take(k as int) =~= c@.take(k as int));
                }
                if q == 0 {
                    out.push_str("/failed.ndjson");
                } else {
                    let parent = string_from_range(&c, 0, q);
                    out.push_str(parent.as_str());
                    out.push_str("/failed.ndjson");
                    proof {
                        assert(c@.subrange(0, q as int) =~= c@.take(q as int));
                        let p = c@.take(q as int);
                        assert(p.len() > 0);
                        if p == seq!['/'] {
                            lemma_stripped_last(c@.take(k as int));
                            assert(p.last() == '/');
                        }
                    }
                }
            },
        }
    }
    proof {
        let e = Seq::<char>::empty();
        assert(e + "failed.ndjson"@ =~= "failed.ndjson"@);
        assert(e + "/failed.ndjson"@ =~= "/failed.ndjson"@);
    }
    out
}

proof fn lemma_max_bounds(rs: Seq<FailedWorkRecord>, n: int)
    requires
        0 <= n <= rs.len(),
    ensures
        forall|i: int| 0 <= i < n ==> (#[trigger] rs[i] matches FailedWorkRecord::Exhausted { id, .. }
            ==> id <= max_exhausted_prefix(rs, n)),
    decreases n,
{
    if n > 0 {
        lemma_max_bounds(rs, n - 1);
    }
}

/// The next id is larger than every id already used by an `Exhausted`
/// record, so a newly parked item never shadows an earlier one.
pub proof fn law_next_id_is_fresh(rs: Seq<FailedWorkRecord>)
    requires
        max_exhausted_prefix(rs, rs.len() as int) < u64::MAX,
    ensures
        forall|i: int| 0 <= i < rs.len() ==> (#[trigger] rs[i] matches FailedWorkRecord::Exhausted { id, .. }
            ==> id < max_exhausted_prefix(rs, rs.len() as int) + 1),
{
    lemma_max_bounds(rs, rs.len() as int);
}

/// A `Requeued` record releases its id: the id is no longer pending.
pub proof fn law_requeue_releases(rs: Seq<FailedWorkRecord>, id: u64)
    ensures
        !pending_map(rs.push(FailedWorkRecord::Requeued { exhausted_id: id }), rs.len() + 1 as int).contains_key(id),
{
    let r2 = rs.push(FailedWorkRecord::Requeued { exhausted_id: id });
    assert(pending_map(r2, rs.len() + 1 as int) == pending_map(r2, rs.len() as int).remove(id));
}

} // verus!
