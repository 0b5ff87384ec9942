//! Change detection: a file version is reported when its identifier differs
//! from the last one seen for the same path.
use vstd::prelude::*;
use crate::ids::{file_version_id, FileFingerprint};
use crate::source::FileVersionDiscovered;
use crate::state::wal::version_of;
use crate::text::str_eq;

verus! {

/// File metadata as observed by a scanner.
#[derive(Debug, PartialEq, Eq)]
pub struct ObservedFileMeta {
    pub canonical_path: String,
    pub size_bytes: u64,
    pub mtime_unix_secs: i64,
}

impl Clone for ObservedFileMeta {
    fn clone(&self) -> (c: Self)
        ensures
            c == *self,
    {
        ObservedFileMeta {
            canonical_path: self.canonical_path.clone(),
            size_bytes: self.size_bytes,
            mtime_unix_secs: self.mtime_unix_secs,
        }
    }
}

/// The fingerprint of an observation (local files carry no entity tag).
pub open spec fn fingerprint_of(m: ObservedFileMeta) -> FileFingerprint {
    FileFingerprint {
        canonical_path: m.canonical_path,
        size_bytes: m.size_bytes,
        mtime_unix_secs: m.mtime_unix_secs,
        etag: None,
    }
}

impl ObservedFileMeta {
    pub fn to_fingerprint(&self) -> (f: FileFingerprint)
        ensures
            f == fingerprint_of(*self),
    {
        FileFingerprint {
            canonical_path: self.canonical_path.clone(),
            size_bytes: self.size_bytes,
            mtime_unix_secs: self.mtime_unix_secs,
            etag: None,
        }
    }
}

/// The version last recorded for path `p` in `entries` (first match).
pub open spec fn seen_version(entries: Seq<(String, [u8; 32])>, p: Seq<char>) -> Option<Seq<u8>>
    decreases entries.len(),
{
    if entries.len() == 0 {
        None
    } else if entries[0].0@ == p {
        Some(entries[0].1@)
    } else {
        seen_version(entries.drop_first(), p)
    }
}

/// The change-detection state machine.
#[derive(Debug)]
pub struct FileTailer {
    last_seen_version: Vec<(String, [u8; 32])>,
    pending: Vec<FileVersionDiscovered>,
}

impl FileTailer {
    /// The version last reported for path `p`, if any.
    pub closed spec fn last_seen(&self, p: Seq<char>) -> Option<Seq<u8>> {
        seen_version(self.last_seen_version@, p)
    }

    /// Discovery events not drained yet, oldest first.
    pub closed spec fn pending(&self) -> Seq<FileVersionDiscovered> {
        self.pending@
    }

    /// A tailer that has seen nothing.
    pub fn new() -> (t: Self)
        ensures
            forall|p: Seq<char>| t.last_seen(p) is None,
            t.pending().len() == 0,
    {
        FileTailer { last_seen_version: Vec::new(), pending: Vec::new() }
    }

    /// Records an observation; a discovery event is queued exactly when the
    /// observed version differs from the last one seen for its path.
    pub fn observe(&mut self, meta: ObservedFileMeta)
        ensures
            ({
                let fp = fingerprint_of(meta);
                let v = version_of(fp);
                let emit = old(self).last_seen(meta.canonical_path@) != Some(v);
                &&& emit ==> final(self).pending() == old(self).pending().push(
                    FileVersionDiscovered { fingerprint: fp, file_version_id: final(self).pending().last().file_version_id },
                ) && final(self).pending().last().file_version_id@ == v
                &&& emit ==> final(self).last_seen(meta.canonical_path@) == Some(v)
                &&& !emit ==> final(self).pending() == old(self).pending()
                &&& forall|p: Seq<char>| p != meta.canonical_path@ ==> #[trigger] final(self).last_seen(p) == old(self).last_seen(p)
                &&& !emit ==> final(self).last_seen(meta.canonical_path@) == old(self).last_seen(meta.canonical_path@)
                &&& final(self).last_seen(meta.canonical_path@) == Some(v)
            }),
    {
        let fingerprint = meta.to_fingerprint();
        let version_id = file_version_id(&fingerprint);
        let ghost entries = self.last_seen_version@;
        let ghost p = meta.canonical_path@;
        let mut k: usize = 0;
        assert(entries.skip(0) =~= entries);
        while k < self.last_seen_version.len()
            invariant
                k <= entries.len(),
                entries == self.last_seen_version@,
                p == meta.canonical_path@,
                forall|m: int| 0 <= m < k ==> (#[trigger] entries[m]).0@ != p,
                seen_version(entries, p) == seen_version(entries.skip(k as int), p),
            ensures
                k <= entries.len(),
                entries == self.last_seen_version@,
                k < entries.len() ==> entries[k as int].0@ == p,
                forall|m: int| 0 <= m < k ==> (#[trigger] entries[m]).0@ != p,
                seen_version(entries, p) == seen_version(entries.skip(k as int), p),
            decreases entries.len() - k,
        {
            let same = str_eq(self.last_seen_version[k].0.as_str(), meta.canonical_path.as_str());
            if same {
                break;
            }
            proof {
                assert(entries[k as int].0@ != p);
                assert(entries.skip(k as int)[0] == entries[k as int]);
                assert(entries.skip(k as int).drop_first() =~= entries.skip(k + 1));
                assert(seen_version(entries.skip(k as int), p) == seen_version(entries.skip(k + 1), p));
            }
            k += 1;
        }
        if k < self.last_seen_version.len() {
            proof {
                assert(entries.skip(k as int)[0] == entries[k as int]);
                assert(entries[k as int].0@ == p);
                assert(seen_version(entries, p) == Some(entries[k as int].1@));
            }
            if crate::state::wal::id_eq(&self.last_seen_version[k].1, &version_id) {
                return;
            }
            let path = self.last_seen_version[k].0.clone();
            self.last_seen_version.set(k, (path, version_id));
            proof {
                lemma_seen_after_set(entries, k as int, self.last_seen_version@);
            }
        } else {
            proof {
                assert(entries.skip(k as int) =~= Seq::<(String, [u8; 32])>::empty());
            }
            self.last_seen_version.push((meta.canonical_path.clone(), version_id));
            proof {
                lemma_seen_after_push(entries, self.last_seen_version@);
            }
        }
        self.pending.push(FileVersionDiscovered { fingerprint, file_version_id: version_id });
    }

    /// Hands out the queued discovery events and clears the queue.
    pub fn drain(&mut self) -> (out: Vec<FileVersionDiscovered>)
        ensures
            out@ == old(self).pending(),
            final(self).pending().len() == 0,
            forall|p: Seq<char>| #[trigger] final(self).last_seen(p) == old(self).last_seen(p),
    {
        let mut out: Vec<FileVersionDiscovered> = Vec::new();
        std::mem::swap(&mut out, &mut self.pending);
        out
    }
}

proof fn lemma_seen_after_set(entries: Seq<(String, [u8; 32])>, k: int, after: Seq<(String, [u8; 32])>)
    requires
        0 <= k < entries.len(),
        after.len() == entries.len(),
        forall|m: int| 0 <= m < entries.len() && m != k ==> after[m] == entries[m],
        after[k].0@ == entries[k].0@,
        forall|m: int| 0 <= m < k ==> (#[trigger] entries[m]).0@ != entries[k].0@,
    ensures
        seen_version(after, entries[k].0@) == Some(after[k].1@),
        forall|p: Seq<char>| p != entries[k].0@ ==> #[trigger] seen_version(after, p) == seen_version(entries, p),
    decreases k,
{
    let e2 = entries.drop_first();
    let a2 = after.drop_first();
    if k > 0 {
        assert forall|m: int| 0 <= m < k - 1 implies (#[trigger] e2[m]).0@ != e2[k - 1].0@ by {
            assert(e2[m] == entries[m + 1]);
        }
        lemma_seen_after_set(e2, k - 1, a2);
        assert(after[0] == entries[0]);
        assert forall|p: Seq<char>| p != entries[k].0@ implies #[trigger] seen_version(after, p) == seen_version(entries, p) by {
            if entries[0].0@ != p {
                assert(seen_version(after, p) == seen_version(a2, p));
                assert(seen_version(entries, p) == seen_version(e2, p));
            }
        }
    } else {
        assert(a2 =~= e2);
        assert forall|p: Seq<char>| p != entries[k].0@ implies #[trigger] seen_version(after, p) == seen_version(entries, p) by {
            assert(seen_version(after, p) == seen_version(a2, p));
            assert(seen_version(entries, p) == seen_version(e2, p));
        }
    }
}

proof fn lemma_seen_after_push(entries: Seq<(String, [u8; 32])>, after: Seq<(String, [u8; 32])>)
    requires
        after.len() == entries.len() + 1,
        forall|m: int| 0 <= m < entries.len() ==> after[m] == entries[m],
        seen_version(entries, after.last().0@) is None,
    ensures
        seen_version(after, after.last().0@) == Some(after.last().1@),
        forall|p: Seq<char>| p != after.last().0@ ==> #[trigger] seen_version(after, p) == seen_version(entries, p),
    decreases entries.len(),
{
    let e2 = entries.drop_first();
    let a2 = after.drop_first();
    if entries.len() > 0 {
        assert(after[0] == entries[0]);
        assert(a2.last() == after.last());
        lemma_seen_after_push(e2, a2);
        assert forall|p: Seq<char>| p != after.last().0@ implies #[trigger] seen_version(after, p) == seen_version(entries, p) by {
            if entries[0].0@ != p {
                assert(seen_version(after, p) == seen_version(a2, p));
                assert(seen_version(entries, p) == seen_version(e2, p));
            }
        }
    } else {
        assert(a2 =~= Seq::<(String, [u8; 32])>::empty());
        assert forall|p: Seq<char>| p != after.last().0@ implies #[trigger] seen_version(after, p) == seen_version(entries, p) by {
            assert(after[0] == after.last());
            assert(seen_version(after, p) == seen_version(a2, p));
        }
    }
}

} // verus!
