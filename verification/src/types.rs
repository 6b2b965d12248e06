//! The data model: listing entries, cache entries, scan events, cache keys
//! and jobs, together with the mathematical views the contracts speak of.

use vstd::prelude::*;

verus! {

/// One entry of a non-recursive directory listing, ready for display.
/// `modified` carries an already-formatted local timestamp, when one is
/// available.
#[derive(Clone, Debug)]
pub struct FileEntry {
    pub name: String,
    pub is_dir: bool,
    pub size: u64,
    pub modified: Option<String>,
}

/// Best-known size information for one cache key: a running or final byte
/// total, a best-effort item count, whether a full scan finished, and the
/// time of the last write (milliseconds, supplied by the caller's clock).
#[derive(Clone, Copy, PartialEq, Eq, Structural, Debug)]
pub struct CacheEntry {
    pub bytes: u64,
    pub items: u64,
    pub completed: bool,
    pub updated_at: u64,
}

/// The final (or cached) total for one immediate child directory.
#[derive(Clone, Debug)]
pub struct ChildEvent {
    pub job_id: String,
    pub scan_key: String,
    pub name: String,
    pub bytes: u64,
}

/// The grand total for the scanned root; always the last event of a scan.
#[derive(Clone, Debug)]
pub struct SummaryEvent {
    pub job_id: String,
    pub scan_key: String,
    pub bytes: u64,
}

/// A partial total for a child directory still being walked.
#[derive(Clone, Debug)]
pub struct ProgressEvent {
    pub job_id: String,
    pub scan_key: String,
    pub bytes: u64,
    pub name: String,
}

/// Identity of a cached size result: the normalized path together with the
/// filter settings it was computed under.
#[derive(Clone, Debug)]
pub struct CacheKey {
    pub path: String,
    pub show_hidden: bool,
    pub ignores_sig: String,
}

/// The mathematical identity of a `CacheKey`.
#[verifier::ext_equal]
pub struct CacheKeyV {
    pub path: Seq<char>,
    pub show_hidden: bool,
    pub ignores_sig: Seq<char>,
}

impl View for CacheKey {
    type V = CacheKeyV;

    open spec fn view(&self) -> CacheKeyV {
        CacheKeyV {
            path: self.path@,
            show_hidden: self.show_hidden,
            ignores_sig: self.ignores_sig@,
        }
    }
}

impl CacheKey {
    /// An owned copy that provably carries the same identity.
    pub fn duplicate(&self) -> (r: CacheKey)
        ensures
            r == *self,
    {
        CacheKey {
            path: self.path.clone(),
            show_hidden: self.show_hidden,
            ignores_sig: self.ignores_sig.clone(),
        }
    }

    /// Two keys are the same identity exactly when their views agree.
    pub fn key_eq(&self, other: &CacheKey) -> (r: bool)
        ensures
            r == (self@ == other@),
    {
        let r = self.path == other.path && self.show_hidden == other.show_hidden
            && self.ignores_sig == other.ignores_sig;
        proof {
            if self@ == other@ {
                assert(self.path@ == other.path@);
                assert(self.ignores_sig@ == other.ignores_sig@);
            }
            if r {
                assert(self@ =~= other@);
            }
        }
        r
    }
}

/// A live scan tracked by the job registry: the cache identity it computes,
/// and its cooperative cancellation signal.
#[derive(Clone, Debug)]
pub struct Job {
    pub key: CacheKey,
    pub cancel: bool,
}

/// The mathematical view of a `Job`.
#[verifier::ext_equal]
pub struct JobV {
    pub key: CacheKeyV,
    pub cancel: bool,
}

impl View for Job {
    type V = JobV;

    open spec fn view(&self) -> JobV {
        JobV { key: self.key@, cancel: self.cancel }
    }
}

} // verus!
