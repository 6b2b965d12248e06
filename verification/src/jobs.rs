//! The job registry: at most one live scan per scan key. Registration is
//! insert-if-absent, so a duplicate request is a no-op rather than a second
//! scan; cancellation flips the job's signal in place.

use vstd::prelude::*;

use crate::types::{Job, JobV};

verus! {

/// The map an association sequence of jobs denotes.
pub open spec fn jobs_map(s: Seq<(String, Job)>) -> Map<Seq<char>, JobV>
    decreases s.len(),
{
    if s.len() == 0 {
        Map::empty()
    } else {
        jobs_map(s.drop_last()).insert(s.last().0@, s.last().1@)
    }
}

/// No two pairs carry the same scan key.
pub open spec fn unique_job_keys(s: Seq<(String, Job)>) -> bool {
    forall|i: int, j: int| 0 <= i < j < s.len() ==> s[i].0@ != s[j].0@
}

/// How the denoted map relates to the pairs of the sequence.
proof fn lemma_jobs_map(s: Seq<(String, Job)>)
    ensures
        forall|k: Seq<char>| #[trigger]
            jobs_map(s).contains_key(k) ==> exists|i: int| 0 <= i < s.len() && s[i].0@ == k,
        unique_job_keys(s) ==> forall|i: int|
            0 <= i < s.len() ==> jobs_map(s).contains_key(#[trigger] s[i].0@)
                && jobs_map(s)[s[i].0@] == s[i].1@,
    decreases s.len(),
{
    if s.len() > 0 {
        lemma_jobs_map(s.drop_last());
        assert(forall|i: int| 0 <= i < s.len() - 1 ==> s.drop_last()[i] == s[i]);
        if unique_job_keys(s) {
            assert(unique_job_keys(s.drop_last()));
        }
        assert forall|k: Seq<char>| #[trigger]
            jobs_map(s).contains_key(k) implies exists|i: int|
            0 <= i < s.len() && s[i].0@ == k by {
            if k == s.last().0@ {
                assert(s[s.len() - 1].0@ == k);
            } else {
                assert(jobs_map(s.drop_last()).contains_key(k));
                let i = choose|i: int| 0 <= i < s.drop_last().len() && s.drop_last()[i].0@ == k;
                assert(s[i].0@ == k);
            }
        }
    }
}

/// Appending a fresh key denotes inserting it.
proof fn lemma_jobs_map_after_push(s: Seq<(String, Job)>, key: String, j: Job)
    requires
        unique_job_keys(s),
        forall|i: int| 0 <= i < s.len() ==> s[i].0@ != key@,
    ensures
        jobs_map(s.push((key, j))) == jobs_map(s).insert(key@, j@),
        unique_job_keys(s.push((key, j))),
{
    assert(s.push((key, j)).drop_last() =~= s);
    assert(forall|i: int| 0 <= i < s.len() ==> s.push((key, j))[i] == s[i]);
}

/// Overwriting the job of an existing key denotes inserting over it.
proof fn lemma_jobs_map_after_update(s: Seq<(String, Job)>, i: int, p: (String, Job))
    requires
        unique_job_keys(s),
        0 <= i < s.len(),
        p.0@ == s[i].0@,
    ensures
        jobs_map(s.update(i, p)) == jobs_map(s).insert(p.0@, p.1@),
        unique_job_keys(s.update(i, p)),
    decreases s.len(),
{
    let s2 = s.update(i, p);
    assert(forall|j: int| 0 <= j < s.len() && j != i ==> s2[j] == s[j]);
    if i == s.len() - 1 {
        assert(s2.drop_last() =~= s.drop_last());
        assert(jobs_map(s2) =~= jobs_map(s).insert(p.0@, p.1@)) by {
            assert(jobs_map(s2) == jobs_map(s2.drop_last()).insert(s2.last().0@, s2.last().1@));
        }
    } else {
        assert(unique_job_keys(s.drop_last())) by {
            assert(forall|j: int| 0 <= j < s.len() - 1 ==> s.drop_last()[j] == s[j]);
        }
        lemma_jobs_map_after_update(s.drop_last(), i, p);
        assert(s2.drop_last() =~= s.drop_last().update(i, p));
        assert(s2.last() == s.last());
        assert(p.0@ != s.last().0@);
        assert(jobs_map(s2) =~= jobs_map(s).insert(p.0@, p.1@)) by {
            assert(jobs_map(s2) == jobs_map(s.drop_last()).insert(p.0@, p.1@).insert(
                s.last().0@,
                s.last().1@,
            ));
        }
    }
}

/// Removing a pair removes exactly its key from the denoted map.
proof fn lemma_jobs_map_after_remove(s: Seq<(String, Job)>, i: int)
    requires
        unique_job_keys(s),
        0 <= i < s.len(),
    ensures
        jobs_map(s.remove(i)) == jobs_map(s).remove(s[i].0@),
        unique_job_keys(s.remove(i)),
    decreases s.len(),
{
    let s2 = s.remove(i);
    assert(forall|j: int| 0 <= j < i ==> s2[j] == s[j]);
    assert(forall|j: int| i <= j < s.len() - 1 ==> s2[j] == s[j + 1]);
    lemma_jobs_map(s);
    lemma_jobs_map(s2);
    assert(unique_job_keys(s2));
    assert forall|k: Seq<char>| true implies jobs_map(s2).contains_key(k) == jobs_map(
        s,
    ).remove(s[i].0@).contains_key(k) by {
        if jobs_map(s2).contains_key(k) {
            let j = choose|j: int| 0 <= j < s2.len() && s2[j].0@ == k;
            if j < i {
                assert(s[j].0@ == k);
            } else {
                assert(s[j + 1].0@ == k);
            }
            assert(jobs_map(s).contains_key(k));
            assert(k != s[i].0@);
        }
        if jobs_map(s).remove(s[i].0@).contains_key(k) {
            let j = choose|j: int| 0 <= j < s.len() && s[j].0@ == k;
            assert(j != i);
            if j < i {
                assert(s2[j].0@ == k);
            } else {
                assert(s2[j - 1].0@ == k);
            }
            assert(jobs_map(s2).contains_key(k));
        }
    }
    assert forall|k: Seq<char>| jobs_map(s2).contains_key(k) implies jobs_map(s2)[k] == jobs_map(
        s,
    ).remove(s[i].0@)[k] by {
        let j = choose|j: int| 0 <= j < s2.len() && s2[j].0@ == k;
        if j < i {
            assert(jobs_map(s)[k] == s[j].1@);
        } else {
            assert(s2[j] == s[j + 1]);
            assert(jobs_map(s)[k] == s[j + 1].1@);
        }
    }
    assert(jobs_map(s2) =~= jobs_map(s).remove(s[i].0@));
}

/// The registry of live scans, keyed by scan key.
pub struct JobRegistry {
    jobs: Vec<(String, Job)>,
}

impl View for JobRegistry {
    type V = Map<Seq<char>, JobV>;

    closed spec fn view(&self) -> Map<Seq<char>, JobV> {
        jobs_map(self.jobs@)
    }
}

impl JobRegistry {
    /// Internal validity: scan keys are pairwise distinct.
    pub closed spec fn wf(&self) -> bool {
        unique_job_keys(self.jobs@)
    }

    /// An empty registry.
    pub fn new() -> (r: Self)
        ensures
            r.wf(),
            r@ == Map::<Seq<char>, JobV>::empty(),
    {
        JobRegistry { jobs: Vec::new() }
    }

    /// The index holding `scan_key`, when the registry holds it.
    fn find(&self, scan_key: &str) -> (r: Option<usize>)
        ensures
            match r {
                Some(i) => i < self.jobs@.len() && self.jobs@[i as int].0@ == scan_key@,
                None => forall|i: int| 0 <= i < self.jobs@.len() ==> self.jobs@[i].0@ != scan_key@,
            },
    {
        let mut i: usize = 0;
        while i < self.jobs.len()
            invariant
                i <= self.jobs@.len(),
                forall|j: int| 0 <= j < i ==> self.jobs@[j].0@ != scan_key@,
            decreases self.jobs@.len() - i,
        {
            if crate::strutil::str_eq(self.jobs[i].0.as_str(), scan_key) {
                return Some(i);
            }
            i += 1;
        }
        None
    }

    /// Whether a scan is registered under `scan_key`.
    pub fn contains(&self, scan_key: &str) -> (r: bool)
        requires
            self.wf(),
        ensures
            r == self@.contains_key(scan_key@),
    {
        proof {
            lemma_jobs_map(self.jobs@);
        }
        match self.find(scan_key) {
            Some(_) => true,
            None => false,
        }
    }

    /// The single-flight entry point: registers `job` under `scan_key` if
    /// and only if no job holds that key yet. `false` means a scan is
    /// already in flight and nothing was changed — success without action.
    pub fn insert_if_absent(&mut self, scan_key: String, job: Job) -> (inserted: bool)
        requires
            old(self).wf(),
        ensures
            final(self).wf(),
            inserted == !old(self)@.contains_key(scan_key@),
            inserted ==> final(self)@ == old(self)@.insert(scan_key@, job@),
            !inserted ==> final(self)@ == old(self)@,
    {
        proof {
            lemma_jobs_map(self.jobs@);
        }
        match self.find(scan_key.as_str()) {
            Some(_) => false,
            None => {
                proof {
                    lemma_jobs_map_after_push(self.jobs@, scan_key, job);
                }
                self.jobs.push((scan_key, job));
                true
            },
        }
    }

    /// Idempotent removal: safe to call whether or not the key is held.
    pub fn remove(&mut self, scan_key: &str)
        requires
            old(self).wf(),
        ensures
            final(self).wf(),
            final(self)@ == old(self)@.remove(scan_key@),
    {
        proof {
            lemma_jobs_map(self.jobs@);
        }
        match self.find(scan_key) {
            Some(i) => {
                proof {
                    lemma_jobs_map_after_remove(self.jobs@, i as int);
                }
                self.jobs.remove(i);
            },
            None => {
                proof {
                    assert(!self@.contains_key(scan_key@));
                    assert(self@ =~= self@.remove(scan_key@));
                }
            },
        }
    }

    /// Best-effort cancellation: flips the job's signal if the job still
    /// exists, and is a no-op otherwise.
    pub fn request_cancel(&mut self, scan_key: &str)
        requires
            old(self).wf(),
        ensures
            final(self).wf(),
            old(self)@.contains_key(scan_key@) ==> final(self)@ == old(self)@.insert(
                scan_key@,
                JobV { key: old(self)@[scan_key@].key, cancel: true },
            ),
            !old(self)@.contains_key(scan_key@) ==> final(self)@ == old(self)@,
    {
        proof {
            lemma_jobs_map(self.jobs@);
        }
        match self.find(scan_key) {
            Some(i) => {
                proof {
                    let s = self.jobs@;
                    let p = (
                        s[i as int].0,
                        Job { key: s[i as int].1.key, cancel: true },
                    );
                    lemma_jobs_map_after_update(s, i as int, p);
                }
                let slot = &mut self.jobs[i];
                slot.1.cancel = true;
            },
            None => {},
        }
    }

    /// Whether the job under `scan_key` has been asked to stop. A missing
    /// job reads as not-cancelled.
    pub fn is_cancel_requested(&self, scan_key: &str) -> (r: bool)
        requires
            self.wf(),
        ensures
            r == (self@.contains_key(scan_key@) && self@[scan_key@].cancel),
    {
        proof {
            lemma_jobs_map(self.jobs@);
        }
        match self.find(scan_key) {
            Some(i) => self.jobs[i].1.cancel,
            None => false,
        }
    }
}

} // verus!
