//! Ingest progress accounting over a window of activity.
//!
//! Counters accumulate from the first activity of a window; a summary is
//! taken (and the counters reset) when the window is ready (nothing pending)
//! or on demand. Time is supplied by the caller in milliseconds.
use vstd::prelude::*;

verus! {

/// The counters of one window.
#[derive(Debug, Clone, Copy, PartialEq, Eq)]
pub struct IngestionSummarySnapshot {
    pub discovered_files: u64,
    pub indexed_files: u64,
    pub failed_files: u64,
    pub emitted_points: u64,
    pub pending_files: u64,
    pub elapsed_ms: u64,
}

/// Accumulated ingest progress.
#[derive(Debug, Clone, Copy, PartialEq, Eq)]
pub struct IngestionSummary {
    pub discovered_files: u64,
    pub indexed_files: u64,
    pub failed_files: u64,
    pub emitted_points: u64,
    pub pending_files: u64,
    pub dirty: bool,
    /// Time of the first activity of the window, in milliseconds.
    pub started_at_ms: Option<u64>,
}

/// The empty window.
pub open spec fn empty_summary() -> IngestionSummary {
    IngestionSummary {
        discovered_files: 0,
        indexed_files: 0,
        failed_files: 0,
        emitted_points: 0,
        pending_files: 0,
        dirty: false,
        started_at_ms: None,
    }
}

/// The snapshot of `s` at time `now_ms`.
pub open spec fn snapshot_at(s: IngestionSummary, now_ms: u64) -> IngestionSummarySnapshot {
    IngestionSummarySnapshot {
        discovered_files: s.discovered_files,
        indexed_files: s.indexed_files,
        failed_files: s.failed_files,
        emitted_points: s.emitted_points,
        pending_files: s.pending_files,
        elapsed_ms: match s.started_at_ms {
            Some(t) => if now_ms >= t { (now_ms - t) as u64 } else { 0 },
            None => 0,
        },
    }
}

/// The window start after activity at `now_ms`: the first activity wins.
pub open spec fn started_after(s: IngestionSummary, now_ms: u64) -> Option<u64> {
    match s.started_at_ms {
        Some(t) => Some(t),
        None => Some(now_ms),
    }
}

impl Default for IngestionSummary {
    fn default() -> (s: Self)
        ensures
            s == empty_summary(),
    {
        IngestionSummary::new()
    }
}

impl IngestionSummary {
    pub fn new() -> (s: Self)
        ensures
            s == empty_summary(),
    {
        IngestionSummary {
            discovered_files: 0,
            indexed_files: 0,
            failed_files: 0,
            emitted_points: 0,
            pending_files: 0,
            dirty: false,
            started_at_ms: None,
        }
    }

    fn mark_activity(&mut self, now_ms: u64)
        ensures
            *final(self) == (IngestionSummary { dirty: true, started_at_ms: started_after(*old(self), now_ms), ..*old(self) }),
    {
        self.dirty = true;
        if self.started_at_ms.is_none() {
            self.started_at_ms = Some(now_ms);
        }
    }

    /// Records `count` newly discovered files, all pending; nothing happens
    /// for a count of zero.
    pub fn record_discovered(&mut self, count: usize, now_ms: u64)
        requires
            old(self).discovered_files + count <= u64::MAX,
            old(self).pending_files + count <= u64::MAX,
        ensures
            count == 0 ==> *final(self) == *old(self),
            count > 0 ==> *final(self) == (IngestionSummary {
                discovered_files: (old(self).discovered_files + count) as u64,
                pending_files: (old(self).pending_files + count) as u64,
                dirty: true,
                started_at_ms: started_after(*old(self), now_ms),
                ..*old(self)
            }),
    {
        if count == 0 {
            return;
        }
        self.mark_activity(now_ms);
        let c = count as u64;
        self.discovered_files = self.discovered_files + c;
        self.pending_files = self.pending_files + c;
    }

    /// Records a file indexed into `point_count` points; one fewer file is
    /// pending (never below zero).
    pub fn record_success(&mut self, point_count: usize, now_ms: u64)
        requires
            old(self).indexed_files < u64::MAX,
            old(self).emitted_points + point_count <= u64::MAX,
        ensures
            *final(self) == (IngestionSummary {
                indexed_files: (old(self).indexed_files + 1) as u64,
                emitted_points: (old(self).emitted_points + point_count) as u64,
                pending_files: if old(self).pending_files > 0 { (old(self).pending_files - 1) as u64 } else { 0 },
                dirty: true,
                started_at_ms: started_after(*old(self), now_ms),
                ..*old(self)
            }),
    {
        self.mark_activity(now_ms);
        self.indexed_files = self.indexed_files + 1;
        self.emitted_points = self.emitted_points + point_count as u64;
        self.pending_files = self.pending_files.saturating_sub(1);
    }

    /// Records a file that failed; one fewer file is pending (never below zero).
    pub fn record_failure(&mut self, now_ms: u64)
        requires
            old(self).failed_files < u64::MAX,
        ensures
            *final(self) == (IngestionSummary {
                failed_files: (old(self).failed_files + 1) as u64,
                pending_files: if old(self).pending_files > 0 { (old(self).pending_files - 1) as u64 } else { 0 },
                dirty: true,
                started_at_ms: started_after(*old(self), now_ms),
                ..*old(self)
            }),
    {
        self.mark_activity(now_ms);
        self.failed_files = self.failed_files + 1;
        self.pending_files = self.pending_files.saturating_sub(1);
    }

    /// The counters at time `now_ms`.
    pub fn snapshot(&self, now_ms: u64) -> (s: IngestionSummarySnapshot)
        ensures
            s == snapshot_at(*self, now_ms),
    {
        let elapsed_ms = match self.started_at_ms {
            Some(t) => if now_ms >= t { now_ms - t } else { 0 },
            None => 0,
        };
        IngestionSummarySnapshot {
            discovered_files: self.discovered_files,
            indexed_files: self.indexed_files,
            failed_files: self.failed_files,
            emitted_points: self.emitted_points,
            pending_files: self.pending_files,
            elapsed_ms,
        }
    }

    /// When the window saw activity and nothing is pending, takes its
    /// snapshot and starts a new window; otherwise leaves it unchanged.
    pub fn emit_if_ready(&mut self, now_ms: u64) -> (r: Option<IngestionSummarySnapshot>)
        ensures
            old(self).dirty && old(self).pending_files == 0 ==> r == Some(snapshot_at(*old(self), now_ms))
                && *final(self) == empty_summary(),
            !(old(self).dirty && old(self).pending_files == 0) ==> r is None && *final(self) == *old(self),
    {
        if !self.dirty || self.pending_files != 0 {
            return None;
        }
        let s = self.snapshot(now_ms);
        *self = IngestionSummary::new();
        Some(s)
    }

    /// When the window saw activity, takes its snapshot and starts a new
    /// window; otherwise leaves it unchanged.
    pub fn emit_if_dirty(&mut self, now_ms: u64) -> (r: Option<IngestionSummarySnapshot>)
        ensures
            old(self).dirty ==> r == Some(snapshot_at(*old(self), now_ms)) && *final(self) == empty_summary(),
            !old(self).dirty ==> r is None && *final(self) == *old(self),
    {
        if !self.dirty {
            return None;
        }
        let s = self.snapshot(now_ms);
        *self = IngestionSummary::new();
        Some(s)
    }
}

} // verus!
