//! Polling-based change tracking for one watched document.
//!
//! The watcher owns the last-observed full document text (what this process
//! last wrote or last saw) and a pattern detector. On each poll the caller
//! reads the file and hands the current content in; the watcher compares it
//! byte for byte with the snapshot, and only on a genuine change re-scans
//! the whole document for spans not yet processed. After the orchestrator
//! writes to the file it must resync the snapshot, so the watcher does not
//! mistake the process's own edit for a new user edit.

use vstd::prelude::*;
use vstd::string::StrSliceExecFns;
use vstd::string::StringExecFns;

use crate::pattern::sha256_of;
use crate::pattern::spans_sorted;
use crate::pattern::spec_detect_new;
use crate::pattern::views_of;
use crate::pattern::EccePattern;
use crate::pattern::PatternDetector;
use crate::scan::str_eq;
use crate::scan::trim_spec;

verus! {

/// Tracks the last-observed document content and the processed payloads.
pub struct FileWatcher {
    last_content: String,
    detector: PatternDetector,
    poll_interval_ms: u64,
}

impl FileWatcher {
    /// The document snapshot: what this process last wrote or last saw.
    pub closed spec fn snapshot(&self) -> Seq<char> {
        self.last_content@
    }

    /// The fingerprints of payloads already dispatched.
    pub closed spec fn processed(&self) -> Set<Seq<u8>> {
        self.detector@
    }

    /// The configured poll interval in milliseconds.
    pub closed spec fn interval_spec(&self) -> u64 {
        self.poll_interval_ms
    }

    /// A watcher over a document whose current content is `initial_content`,
    /// with the default poll interval.
    pub fn new(initial_content: String) -> (w: Self)
        ensures
            w.snapshot() == initial_content@,
            w.processed() == Set::<Seq<u8>>::empty(),
            w.interval_spec() == 500u64,
    {
        Self::with_interval(initial_content, 500)
    }

    /// A watcher over a document whose current content is `initial_content`.
    pub fn with_interval(initial_content: String, interval_ms: u64) -> (w: Self)
        ensures
            w.snapshot() == initial_content@,
            w.processed() == Set::<Seq<u8>>::empty(),
            w.interval_spec() == interval_ms,
    {
        FileWatcher {
            last_content: initial_content,
            detector: PatternDetector::new(),
            poll_interval_ms: interval_ms,
        }
    }

    /// Prepare to watch. Polling needs no setup, so this changes nothing.
    pub fn watch(&mut self)
        ensures
            *final(self) == *old(self),
    {
    }

    /// One poll step, given the document content just read: if the content
    /// equals the snapshot, nothing changed and nothing is reported; on a
    /// genuine change, the whole current content is re-scanned, the spans
    /// not yet processed are reported in order, and the snapshot is updated
    /// to the new content.
    pub fn check_content(&mut self, current: &str) -> (res: Vec<EccePattern>)
        ensures
            current@ == old(self).snapshot() ==> *final(self) == *old(self) && res@.len() == 0,
            current@ != old(self).snapshot() ==> {
                &&& final(self).snapshot() == current@
                &&& final(self).processed() == old(self).processed()
                &&& final(self).interval_spec() == old(self).interval_spec()
                &&& views_of(res@) == spec_detect_new(current@, old(self).processed())
            },
            spans_sorted(views_of(res@)),
    {
        if str_eq(current, self.last_content.as_str()) {
            Vec::new()
        } else {
            let patterns = self.detector.detect_new_patterns(current);
            self.last_content = String::from_str(current);
            patterns
        }
    }

    /// Record a payload's fingerprint as processed, so it is never again
    /// reported as new while this process lives. The fingerprint is taken
    /// over the trimmed payload text.
    pub fn mark_processed(&mut self, content: &str)
        ensures
            final(self).processed() == old(self).processed().insert(
                sha256_of(trim_spec(content@)),
            ),
            final(self).snapshot() == old(self).snapshot(),
            final(self).interval_spec() == old(self).interval_spec(),
    {
        self.detector.mark_processed(content);
    }

    /// Force-refresh the snapshot to `current` without running detection.
    /// The orchestrator calls this after each of its own writes, handing in
    /// the content it just wrote, so that write is not treated as an edit.
    pub fn update_content(&mut self, current: &str)
        ensures
            final(self).snapshot() == current@,
            final(self).processed() == old(self).processed(),
            final(self).interval_spec() == old(self).interval_spec(),
    {
        self.last_content = String::from_str(current);
    }

    /// The current snapshot text.
    pub fn current_content(&self) -> (r: &str)
        ensures
            r@ == self.snapshot(),
    {
        self.last_content.as_str()
    }

    /// The configured poll interval in milliseconds.
    pub fn poll_interval(&self) -> (r: u64)
        ensures
            r == self.interval_spec(),
    {
        self.poll_interval_ms
    }
}

} // verus!
