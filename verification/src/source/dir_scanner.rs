//! Polling directory scanner: the scanner enumerates regular files and feeds
//! their metadata to a [`FileTailer`]; enumeration itself is I/O and is done
//! by the caller.
use vstd::prelude::*;
use crate::ids::FileFingerprint;
use crate::source::file_tailer::{fingerprint_of, FileTailer, ObservedFileMeta};
use crate::state::wal::version_of;
use crate::source::FileVersionDiscovered;

verus! {

/// A polling source rooted at a directory.
#[derive(Debug)]
pub struct DirectoryScannerSource {
    root: String,
    tailer: FileTailer,
}

impl DirectoryScannerSource {
    pub closed spec fn root_view(&self) -> Seq<char> {
        self.root@
    }

    pub closed spec fn tailer_view(&self) -> FileTailer {
        self.tailer
    }

    /// A scanner for `root` that has seen nothing; construction never fails.
    pub fn new(root: &str) -> (r: Result<Self, String>)
        ensures
            r matches Ok(s) && s.root_view() == root@ && s.tailer_view().pending().len() == 0
                && forall|p: Seq<char>| s.tailer_view().last_seen(p) is None,
    {
        Ok(DirectoryScannerSource { root: crate::text::owned(root), tailer: FileTailer::new() })
    }

    /// The directory being scanned.
    pub fn root(&self) -> (r: &str)
        ensures
            r@ == self.root_view(),
    {
        self.root.as_str()
    }

    /// Feeds one scan's observations, in order, and drains the resulting
    /// discovery events: the events still queued, then one event for each
    /// observation whose version differs from the last one seen for its path
    /// (see [`emitted`]).
    pub fn poll_observed(&mut self, observed: Vec<ObservedFileMeta>) -> (out: Vec<FileVersionDiscovered>)
        ensures
            final(self).root_view() == old(self).root_view(),
            final(self).tailer_view().pending().len() == 0,
            event_views(out@) == event_views(old(self).tailer_view().pending()) + emitted(
                seen_fn(old(self).tailer_view()),
                observed@,
            ),
            forall|p: Seq<char>| #[trigger] final(self).tailer_view().last_seen(p) == seen_after_all(
                seen_fn(old(self).tailer_view()),
                observed@,
            )(p),
            forall|k: int| 0 <= k < observed@.len() ==> #[trigger] final(self).tailer_view().last_seen(observed@[k].canonical_path@).is_some(),
    {
        let ghost start_seen = seen_fn(self.tailer_view());
        let ghost start_pending = event_views(self.tailer_view().pending());
        let mut i: usize = 0;
        proof {
            assert(observed@.skip(0) =~= observed@);
        }
        while i < observed.len()
            invariant
                i <= observed@.len(),
                self.root_view() == old(self).root_view(),
                start_seen == seen_fn(old(self).tailer_view()),
                start_pending == event_views(old(self).tailer_view().pending()),
                event_views(self.tailer_view().pending()) + emitted(seen_fn(self.tailer_view()), observed@.skip(i as int))
                    == start_pending + emitted(start_seen, observed@),
                seen_after_all(seen_fn(self.tailer_view()), observed@.skip(i as int)) == seen_after_all(start_seen, observed@),
                forall|k: int| 0 <= k < i ==> #[trigger] self.tailer_view().last_seen(observed@[k].canonical_path@).is_some(),
            decreases observed@.len() - i,
        {
            let m = observed[i].clone();
            let ghost meta = observed@[i as int];
            let ghost path = meta.canonical_path@;
            let ghost before = self.tailer_view();
            let ghost rest = observed@.skip(i as int);
            self.tailer.observe(m);
            proof {
                assert(rest[0] == meta);
                assert(rest.drop_first() =~= observed@.skip(i + 1));
                assert(seen_fn(self.tailer_view()) =~= seen_after(seen_fn(before), meta));
                let v = version_of(fingerprint_of(meta));
                let ev = event_views(before.pending());
                if seen_fn(before)(path) != Some(v) {
                    assert(event_views(self.tailer_view().pending()) =~= ev + seq![(fingerprint_of(meta), v)]);
                    let tail = emitted(seen_fn(self.tailer_view()), observed@.skip(i + 1));
                    assert(ev + (seq![(fingerprint_of(meta), v)] + tail) =~= (ev + seq![(fingerprint_of(meta), v)]) + tail);
                } else {
                    assert(event_views(self.tailer_view().pending()) == ev);
                    let tail = emitted(seen_fn(self.tailer_view()), observed@.skip(i + 1));
                    assert(Seq::<(FileFingerprint, Seq<u8>)>::empty() + tail =~= tail);
                }
                assert forall|k: int| 0 <= k < i + 1 implies #[trigger] self.tailer_view().last_seen(observed@[k].canonical_path@).is_some() by {
                    if observed@[k].canonical_path@ != path {
                        assert(self.tailer_view().last_seen(observed@[k].canonical_path@) == before.last_seen(observed@[k].canonical_path@));
                    }
                }
            }
            i += 1;
        }
        let ghost before = self.tailer_view();
        let out = self.tailer.drain();
        proof {
            assert(observed@.skip(observed@.len() as int) =~= Seq::<ObservedFileMeta>::empty());
            assert(emitted(seen_fn(before), Seq::<ObservedFileMeta>::empty()) =~= Seq::<(FileFingerprint, Seq<u8>)>::empty());
            assert(event_views(out@) + Seq::<(FileFingerprint, Seq<u8>)>::empty() =~= event_views(out@));
            assert(seen_fn(self.tailer_view()) =~= seen_fn(before));
            assert forall|k: int| 0 <= k < observed@.len() implies #[trigger] self.tailer_view().last_seen(observed@[k].canonical_path@).is_some() by {
                assert(before.last_seen(observed@[k].canonical_path@).is_some());
                assert(self.tailer_view().last_seen(observed@[k].canonical_path@) == before.last_seen(observed@[k].canonical_path@));
            }
        }
        out
    }
}

/// An event as values: the fingerprint and the version identifier.
pub open spec fn event_views(s: Seq<FileVersionDiscovered>) -> Seq<(FileFingerprint, Seq<u8>)> {
    s.map_values(|e: FileVersionDiscovered| (e.fingerprint, e.file_version_id@))
}

/// The versions last seen by a tailer, as a function of the path.
pub open spec fn seen_fn(t: FileTailer) -> spec_fn(Seq<char>) -> Option<Seq<u8>> {
    |p: Seq<char>| t.last_seen(p)
}

/// The versions last seen after observing `m`: its path now maps to its version.
pub open spec fn seen_after(
    seen: spec_fn(Seq<char>) -> Option<Seq<u8>>,
    m: ObservedFileMeta,
) -> spec_fn(Seq<char>) -> Option<Seq<u8>> {
    |p: Seq<char>| if p == m.canonical_path@ { Some(version_of(fingerprint_of(m))) } else { seen(p) }
}

/// The versions last seen after observing all of `ms`, in order.
pub open spec fn seen_after_all(
    seen: spec_fn(Seq<char>) -> Option<Seq<u8>>,
    ms: Seq<ObservedFileMeta>,
) -> spec_fn(Seq<char>) -> Option<Seq<u8>>
    decreases ms.len(),
{
    if ms.len() == 0 {
        seen
    } else {
        seen_after_all(seen_after(seen, ms[0]), ms.drop_first())
    }
}

/// The events that observing `ms` in order produces, starting from the
/// versions `seen`: an observation whose version differs from the last one
/// seen for its path yields its fingerprint and version.
pub open spec fn emitted(
    seen: spec_fn(Seq<char>) -> Option<Seq<u8>>,
    ms: Seq<ObservedFileMeta>,
) -> Seq<(FileFingerprint, Seq<u8>)>
    decreases ms.len(),
{
    if ms.len() == 0 {
        Seq::empty()
    } else {
        let m = ms[0];
        let v = version_of(fingerprint_of(m));
        let head = if seen(m.canonical_path@) != Some(v) {
            seq![(fingerprint_of(m), v)]
        } else {
            Seq::empty()
        };
        head + emitted(seen_after(seen, m), ms.drop_first())
    }
}

/// Observing paths that `ms` does not mention leaves their versions alone.
proof fn lemma_unmentioned_path(seen: spec_fn(Seq<char>) -> Option<Seq<u8>>, ms: Seq<ObservedFileMeta>, p: Seq<char>)
    requires
        forall|k: int| 0 <= k < ms.len() ==> (#[trigger] ms[k]).canonical_path@ != p,
    ensures
        seen_after_all(seen, ms)(p) == seen(p),
    decreases ms.len(),
{
    if ms.len() > 0 {
        assert(ms[0].canonical_path@ != p);
        assert forall|k: int| 0 <= k < ms.drop_first().len() implies (#[trigger] ms.drop_first()[k]).canonical_path@ != p by {
            assert(ms.drop_first()[k] == ms[k + 1]);
        }
        lemma_unmentioned_path(seen_after(seen, ms[0]), ms.drop_first(), p);
    }
}

/// After a scan over distinct paths, each path maps to its observed version.
proof fn lemma_scan_records_versions(seen: spec_fn(Seq<char>) -> Option<Seq<u8>>, ms: Seq<ObservedFileMeta>, k: int)
    requires
        0 <= k < ms.len(),
        forall|a: int, b: int| 0 <= a < b < ms.len() ==> (#[trigger] ms[a]).canonical_path@ != (#[trigger] ms[b]).canonical_path@,
    ensures
        seen_after_all(seen, ms)(ms[k].canonical_path@) == Some(version_of(fingerprint_of(ms[k]))),
    decreases ms.len(),
{
    let rest = ms.drop_first();
    let g = seen_after(seen, ms[0]);
    assert forall|a: int, b: int| 0 <= a < b < rest.len() implies (#[trigger] rest[a]).canonical_path@ != (#[trigger] rest[b]).canonical_path@ by {
        assert(rest[a] == ms[a + 1]);
        assert(rest[b] == ms[b + 1]);
    }
    if k == 0 {
        assert forall|j: int| 0 <= j < rest.len() implies (#[trigger] rest[j]).canonical_path@ != ms[0].canonical_path@ by {
            assert(rest[j] == ms[j + 1]);
        }
        lemma_unmentioned_path(g, rest, ms[0].canonical_path@);
    } else {
        assert(rest[k - 1] == ms[k]);
        lemma_scan_records_versions(g, rest, k - 1);
    }
}

/// Observations whose versions are all already seen produce no event.
proof fn lemma_nothing_new(seen: spec_fn(Seq<char>) -> Option<Seq<u8>>, ms: Seq<ObservedFileMeta>)
    requires
        forall|k: int| 0 <= k < ms.len() ==> seen((#[trigger] ms[k]).canonical_path@) == Some(version_of(fingerprint_of(ms[k]))),
    ensures
        emitted(seen, ms) == Seq::<(FileFingerprint, Seq<u8>)>::empty(),
    decreases ms.len(),
{
    if ms.len() > 0 {
        let m = ms[0];
        assert(seen(m.canonical_path@) == Some(version_of(fingerprint_of(m))));
        assert(seen_after(seen, m) =~= seen);
        assert forall|k: int| 0 <= k < ms.drop_first().len() implies seen((#[trigger] ms.drop_first()[k]).canonical_path@)
            == Some(version_of(fingerprint_of(ms.drop_first()[k]))) by {
            assert(ms.drop_first()[k] == ms[k + 1]);
        }
        lemma_nothing_new(seen, ms.drop_first());
        assert(Seq::<(FileFingerprint, Seq<u8>)>::empty() + Seq::<(FileFingerprint, Seq<u8>)>::empty()
            =~= Seq::<(FileFingerprint, Seq<u8>)>::empty());
    }
}

/// Scanning an unchanged directory again reports nothing: after a scan over
/// distinct paths, the same observations produce no event.
pub proof fn law_rescan_without_changes_emits_nothing(
    seen: spec_fn(Seq<char>) -> Option<Seq<u8>>,
    ms: Seq<ObservedFileMeta>,
)
    requires
        forall|a: int, b: int| 0 <= a < b < ms.len() ==> (#[trigger] ms[a]).canonical_path@ != (#[trigger] ms[b]).canonical_path@,
    ensures
        emitted(seen_after_all(seen, ms), ms) == Seq::<(FileFingerprint, Seq<u8>)>::empty(),
{
    let after = seen_after_all(seen, ms);
    assert forall|k: int| 0 <= k < ms.len() implies after((#[trigger] ms[k]).canonical_path@) == Some(version_of(fingerprint_of(ms[k]))) by {
        lemma_scan_records_versions(seen, ms, k);
    }
    lemma_nothing_new(after, ms);
}

/// A file seen for the first time is reported: an observation of a path
/// with no version seen yet yields an event carrying its fingerprint.
pub proof fn law_new_path_is_reported(seen: spec_fn(Seq<char>) -> Option<Seq<u8>>, m: ObservedFileMeta)
    requires
        seen(m.canonical_path@) is None,
    ensures
        emitted(seen, seq![m]) == seq![(fingerprint_of(m), version_of(fingerprint_of(m)))],
{
    let ms = seq![m];
    assert(ms[0] == m);
    assert(ms.drop_first() =~= Seq::<ObservedFileMeta>::empty());
    assert(emitted(seen_after(seen, m), Seq::<ObservedFileMeta>::empty()) =~= Seq::<(FileFingerprint, Seq<u8>)>::empty());
    assert(seq![(fingerprint_of(m), version_of(fingerprint_of(m)))] + Seq::<(FileFingerprint, Seq<u8>)>::empty()
        =~= seq![(fingerprint_of(m), version_of(fingerprint_of(m)))]);
}

} // verus!
