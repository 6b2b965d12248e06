//! The scan orchestrator: one logical recursive size computation for a
//! (path, filters) combination.
//!
//! The orchestrator is driven from outside in phases — register, tally the
//! root listing, plan each child against the cache, record walk results,
//! then finish or abort — and every phase is a verified transition on the
//! injected cache and registry. The driver only lists directories, runs
//! walkers under the permit limiter, reads the clock, and delivers events.

use vstd::prelude::*;

use crate::cache::SizeCache;
use crate::jobs::JobRegistry;
use crate::keys::{
    make_cache_key, make_scan_key, spec_cache_key, spec_scan_key, spec_should_skip,
};
use crate::strutil::clone_strings;
use crate::sums::{sat_add, sat_sum};
use crate::types::{CacheEntry, CacheKey, ChildEvent, Job, JobV, ProgressEvent, SummaryEvent};

verus! {

/// What a root directory entry turned out to be.
#[derive(Clone, Copy, PartialEq, Eq, Structural, Debug)]
pub enum EntryKind {
    Directory,
    File,
    Other,
}

/// One immediate entry of the scanned root, as the driver listed it:
/// name, kind, and byte size (meaningful for files).
#[derive(Clone, Debug)]
pub struct RootEntry {
    pub name: String,
    pub kind: EntryKind,
    pub size: u64,
}

/// An entry survives the filters.
pub open spec fn entry_kept(e: RootEntry, sh: bool, igs: Seq<Seq<char>>) -> bool {
    !spec_should_skip(e.name@, sh, igs)
}

/// The saturating sum of the sizes of the kept files among `entries`.
pub open spec fn root_files_sum(entries: Seq<RootEntry>, sh: bool, igs: Seq<Seq<char>>) -> u64
    decreases entries.len(),
{
    if entries.len() == 0 {
        0
    } else {
        let rest = root_files_sum(entries.drop_last(), sh, igs);
        let e = entries.last();
        if entry_kept(e, sh, igs) && e.kind is File {
            sat_add(rest, e.size)
        } else {
            rest
        }
    }
}

/// The names of the kept directories among `entries`, in listing order.
pub open spec fn kept_dir_names(entries: Seq<RootEntry>, sh: bool, igs: Seq<Seq<char>>) -> Seq<
    Seq<char>,
>
    decreases entries.len(),
{
    if entries.len() == 0 {
        Seq::empty()
    } else {
        let rest = kept_dir_names(entries.drop_last(), sh, igs);
        let e = entries.last();
        if entry_kept(e, sh, igs) && e.kind is Directory {
            rest.push(e.name@)
        } else {
            rest
        }
    }
}

/// The sizes of the kept files among `entries`, in listing order.
pub open spec fn kept_file_sizes(entries: Seq<RootEntry>, sh: bool, igs: Seq<Seq<char>>) -> Seq<u64>
    decreases entries.len(),
{
    if entries.len() == 0 {
        Seq::empty()
    } else {
        let rest = kept_file_sizes(entries.drop_last(), sh, igs);
        let e = entries.last();
        if entry_kept(e, sh, igs) && e.kind is File {
            rest.push(e.size)
        } else {
            rest
        }
    }
}

/// The per-child totals recorded so far, as a sequence of byte values.
pub open spec fn child_total_values(s: Seq<(String, u64)>) -> Seq<u64> {
    Seq::new(s.len(), |i: int| s[i].1)
}

/// The state of one scan in flight: its identities, its filters, and the
/// totals accumulated so far.
pub struct ScanState {
    pub job_id: String,
    pub scan_key: String,
    pub cache_key: CacheKey,
    pub show_hidden: bool,
    pub ignores: Vec<String>,
    pub root_files_total: u64,
    pub children: Vec<String>,
    pub child_totals: Vec<(String, u64)>,
}

/// The grand total a scan reports: root-level files plus every recorded
/// child total, saturating.
pub open spec fn spec_scan_total(scan: ScanState) -> u64 {
    sat_add(scan.root_files_total, sat_sum(child_total_values(scan.child_totals@)))
}

/// The single-flight "ensure a scan is running" entry point. Derives the
/// cache identity from the normalized path and the scan identity from the
/// raw one, and registers a fresh job — unless a scan for the same scan key
/// is already in flight, in which case nothing changes and `None` says the
/// caller is done (the running scan's events are tagged with the same scan
/// key). Exactly one scan per scan key can therefore ever be live.
pub fn ensure_scan(
    jobs: &mut JobRegistry,
    raw_path: &str,
    norm_path: &str,
    job_id: &str,
    show_hidden: bool,
    ignores: &Vec<String>,
) -> (r: Option<ScanState>)
    requires
        old(jobs).wf(),
    ensures
        final(jobs).wf(),
        ({
            let sk = spec_scan_key(raw_path@, show_hidden, ignores.deep_view());
            let ck = spec_cache_key(norm_path@, show_hidden, ignores.deep_view());
            &&& (r is Some <==> !old(jobs)@.contains_key(sk))
            &&& (r is None ==> final(jobs)@ == old(jobs)@)
            &&& match r {
                Some(scan) => {
                    &&& final(jobs)@ == old(jobs)@.insert(sk, JobV { key: ck, cancel: false })
                    &&& scan.scan_key@ == sk
                    &&& scan.cache_key@ == ck
                    &&& scan.job_id@ == job_id@
                    &&& scan.show_hidden == show_hidden
                    &&& scan.ignores@ == ignores@
                    &&& scan.root_files_total == 0
                    &&& scan.children@.len() == 0
                    &&& scan.child_totals@.len() == 0
                },
                None => true,
            }
        }),
{
    let cache_key = make_cache_key(norm_path, show_hidden, ignores);
    let scan_key = make_scan_key(raw_path, show_hidden, ignores);
    let job = Job { key: cache_key.duplicate(), cancel: false };
    proof {
        assert(job@ =~= (JobV {
            key: spec_cache_key(norm_path@, show_hidden, ignores.deep_view()),
            cancel: false,
        }));
    }
    let inserted = jobs.insert_if_absent(scan_key.clone(), job);
    if !inserted {
        return None;
    }
    Some(
        ScanState {
            job_id: job_id.to_owned(),
            scan_key,
            cache_key,
            show_hidden,
            ignores: clone_strings(ignores),
            root_files_total: 0,
            children: Vec::new(),
            child_totals: Vec::new(),
        },
    )
}

/// Classifies the root's immediate entries, listed once by the driver:
/// filtered-out entries contribute nothing, files accumulate into the
/// root-files total (saturating), and directories queue as child-scan
/// candidates in listing order.
pub fn tally_root_entries(scan: &mut ScanState, entries: &Vec<RootEntry>)
    ensures
        final(scan).root_files_total == root_files_sum(
            entries@,
            old(scan).show_hidden,
            old(scan).ignores.deep_view(),
        ),
        final(scan).children.deep_view() == kept_dir_names(
            entries@,
            old(scan).show_hidden,
            old(scan).ignores.deep_view(),
        ),
        final(scan).job_id == old(scan).job_id,
        final(scan).scan_key == old(scan).scan_key,
        final(scan).cache_key == old(scan).cache_key,
        final(scan).show_hidden == old(scan).show_hidden,
        final(scan).ignores == old(scan).ignores,
        final(scan).child_totals == old(scan).child_totals,
{
    let mut total: u64 = 0;
    let mut dirs: Vec<String> = Vec::new();
    let mut i: usize = 0;
    proof {
        assert(entries@.subrange(0, 0) =~= Seq::<RootEntry>::empty());
        assert(dirs.deep_view() =~= Seq::<Seq<char>>::empty());
    }
    while i < entries.len()
        invariant
            i <= entries@.len(),
            *scan == *old(scan),
            total == root_files_sum(
                entries@.subrange(0, i as int),
                scan.show_hidden,
                scan.ignores.deep_view(),
            ),
            dirs.deep_view() == kept_dir_names(
                entries@.subrange(0, i as int),
                scan.show_hidden,
                scan.ignores.deep_view(),
            ),
        decreases entries@.len() - i,
    {
        let e = &entries[i];
        let ghost prefix = entries@.subrange(0, i as int);
        let ghost old_dirs_dv = dirs.deep_view();
        if !crate::keys::should_skip(e.name.as_str(), scan.show_hidden, &scan.ignores) {
            match e.kind {
                EntryKind::Directory => {
                    dirs.push(e.name.clone());
                    proof {
                        assert(dirs.deep_view() =~= old_dirs_dv.push(e.name@));
                    }
                },
                EntryKind::File => {
                    total = total.saturating_add(e.size);
                },
                EntryKind::Other => {},
            }
        }
        proof {
            assert(entries@.subrange(0, i + 1).drop_last() =~= prefix);
            assert(entries@.subrange(0, i + 1).last() == entries@[i as int]);
        }
        i += 1;
    }
    proof {
        assert(entries@.subrange(0, entries@.len() as int) =~= entries@);
    }
    scan.root_files_total = total;
    scan.children = dirs;
}

/// The incremental root-files accumulation equals the saturating sum of
/// the kept file sizes taken as a sequence.
pub proof fn lemma_root_files_sum_filtered(entries: Seq<RootEntry>, sh: bool, igs: Seq<Seq<char>>)
    ensures
        root_files_sum(entries, sh, igs) == sat_sum(kept_file_sizes(entries, sh, igs)),
    decreases entries.len(),
{
    if entries.len() > 0 {
        lemma_root_files_sum_filtered(entries.drop_last(), sh, igs);
        let e = entries.last();
        if entry_kept(e, sh, igs) && e.kind is File {
            crate::sums::lemma_sat_sum_push(
                kept_file_sizes(entries.drop_last(), sh, igs),
                e.size,
            );
        }
    }
}

/// Aggregate correctness: when a scan's root-files total came from
/// tallying `entries`, its summary total is the saturating sum of the kept
/// file sizes plus the saturating sum of the recorded child totals.
pub proof fn lemma_summary_aggregate(scan: ScanState, entries: Seq<RootEntry>)
    requires
        scan.root_files_total == root_files_sum(
            entries,
            scan.show_hidden,
            scan.ignores.deep_view(),
        ),
    ensures
        spec_scan_total(scan) == sat_add(
            sat_sum(kept_file_sizes(entries, scan.show_hidden, scan.ignores.deep_view())),
            sat_sum(child_total_values(scan.child_totals@)),
        ),
{
    lemma_root_files_sum_filtered(entries, scan.show_hidden, scan.ignores.deep_view());
}

/// Filter correctness at the root: an entry the filters exclude
/// contributes nothing — removing it changes neither the root-files total,
/// nor the queued children, nor the kept file sizes.
pub proof fn lemma_skipped_entry_irrelevant(
    entries: Seq<RootEntry>,
    i: int,
    sh: bool,
    igs: Seq<Seq<char>>,
)
    requires
        0 <= i < entries.len(),
        spec_should_skip(entries[i].name@, sh, igs),
    ensures
        root_files_sum(entries.remove(i), sh, igs) == root_files_sum(entries, sh, igs),
        kept_dir_names(entries.remove(i), sh, igs) == kept_dir_names(entries, sh, igs),
        kept_file_sizes(entries.remove(i), sh, igs) == kept_file_sizes(entries, sh, igs),
    decreases entries.len(),
{
    let s2 = entries.remove(i);
    if i == entries.len() - 1 {
        assert(s2 =~= entries.drop_last());
    } else {
        assert(s2.drop_last() =~= entries.drop_last().remove(i));
        assert(s2.last() == entries.last());
        assert(entries.drop_last()[i] == entries[i]);
        lemma_skipped_entry_irrelevant(entries.drop_last(), i, sh, igs);
    }
}

/// What the orchestrator decided for one queued child directory: reuse a
/// completed cached total without touching the filesystem, or walk the
/// subtree — seeding the display with a non-zero partial total when the
/// cache holds one.
#[derive(Clone, Copy, PartialEq, Eq, Debug)]
pub enum ChildPlan {
    Cached { bytes: u64 },
    Walk { seed: Option<u64> },
}

/// Decides a queued child against the live cache, under the lock, replacing
/// the snapshot-then-recheck dance with a single race-free lookup. A
/// completed entry is reused as-is; a non-zero partial entry seeds a
/// progress value before the walk; anything else means a fresh walk.
pub fn plan_child(
    cache: &SizeCache,
    child_norm_path: &str,
    show_hidden: bool,
    ignores: &Vec<String>,
) -> (r: ChildPlan)
    requires
        cache.wf(),
    ensures
        ({
            let k = spec_cache_key(child_norm_path@, show_hidden, ignores.deep_view());
            if cache@.contains_key(k) && cache@[k].completed {
                r == (ChildPlan::Cached { bytes: cache@[k].bytes })
            } else if cache@.contains_key(k) && cache@[k].bytes > 0 {
                r == (ChildPlan::Walk { seed: Some(cache@[k].bytes) })
            } else {
                r == (ChildPlan::Walk { seed: None::<u64> })
            }
        }),
{
    let k = make_cache_key(child_norm_path, show_hidden, ignores);
    match cache.get(&k) {
        Some(e) => {
            if e.completed {
                ChildPlan::Cached { bytes: e.bytes }
            } else if e.bytes > 0 {
                ChildPlan::Walk { seed: Some(e.bytes) }
            } else {
                ChildPlan::Walk { seed: None }
            }
        },
        None => ChildPlan::Walk { seed: None },
    }
}

/// Records a child total taken straight from the cache: the child joins the
/// running totals and its final event is delivered at once — its subtree is
/// not touched.
pub fn record_cached_child(scan: &mut ScanState, name: &str, bytes: u64) -> (ev: ChildEvent)
    ensures
        final(scan).child_totals@.len() == old(scan).child_totals@.len() + 1,
        final(scan).child_totals@.last().0@ == name@,
        final(scan).child_totals@.last().1 == bytes,
        forall|j: int|
            0 <= j < old(scan).child_totals@.len() ==> final(scan).child_totals@[j] == old(
                scan,
            ).child_totals@[j],
        child_total_values(final(scan).child_totals@) == child_total_values(
            old(scan).child_totals@,
        ).push(bytes),
        final(scan).job_id == old(scan).job_id,
        final(scan).scan_key == old(scan).scan_key,
        final(scan).cache_key == old(scan).cache_key,
        final(scan).show_hidden == old(scan).show_hidden,
        final(scan).ignores == old(scan).ignores,
        final(scan).root_files_total == old(scan).root_files_total,
        final(scan).children == old(scan).children,
        ev.job_id == old(scan).job_id,
        ev.scan_key == old(scan).scan_key,
        ev.name@ == name@,
        ev.bytes == bytes,
{
    scan.child_totals.push((name.to_owned(), bytes));
    proof {
        assert(child_total_values(scan.child_totals@) =~= child_total_values(
            old(scan).child_totals@,
        ).push(bytes));
    }
    ChildEvent {
        job_id: scan.job_id.clone(),
        scan_key: scan.scan_key.clone(),
        name: name.to_owned(),
        bytes,
    }
}

/// Publishes a partial total for a child still being walked: the cache
/// entry is overwritten with the running, not-yet-completed value so that a
/// caller arriving mid-scan sees a non-zero number, and the matching
/// progress event is handed back for delivery.
pub fn record_progress(
    cache: &mut SizeCache,
    scan: &ScanState,
    child_key: &CacheKey,
    name: &str,
    bytes: u64,
    now_ms: u64,
) -> (ev: ProgressEvent)
    requires
        old(cache).wf(),
    ensures
        final(cache).wf(),
        final(cache)@ == old(cache)@.insert(
            child_key@,
            (CacheEntry { bytes, items: 0, completed: false, updated_at: now_ms }),
        ),
        ev.job_id == scan.job_id,
        ev.scan_key == scan.scan_key,
        ev.name@ == name@,
        ev.bytes == bytes,
{
    cache.upsert(child_key, CacheEntry { bytes, items: 0, completed: false, updated_at: now_ms });
    ProgressEvent {
        job_id: scan.job_id.clone(),
        scan_key: scan.scan_key.clone(),
        bytes,
        name: name.to_owned(),
    }
}

/// Records the outcome of one child walk: the total is cached — marked
/// completed only when the walk ran to its end, so a cancelled child is
/// redone rather than trusted — the child joins the running totals, and its
/// final event is handed back.
pub fn record_child_result(
    cache: &mut SizeCache,
    scan: &mut ScanState,
    child_key: &CacheKey,
    name: &str,
    bytes: u64,
    finished: bool,
    now_ms: u64,
) -> (ev: ChildEvent)
    requires
        old(cache).wf(),
    ensures
        final(cache).wf(),
        final(cache)@ == old(cache)@.insert(
            child_key@,
            (CacheEntry { bytes, items: 0, completed: finished, updated_at: now_ms }),
        ),
        final(scan).child_totals@.len() == old(scan).child_totals@.len() + 1,
        final(scan).child_totals@.last().0@ == name@,
        final(scan).child_totals@.last().1 == bytes,
        forall|j: int|
            0 <= j < old(scan).child_totals@.len() ==> final(scan).child_totals@[j] == old(
                scan,
            ).child_totals@[j],
        child_total_values(final(scan).child_totals@) == child_total_values(
            old(scan).child_totals@,
        ).push(bytes),
        final(scan).job_id == old(scan).job_id,
        final(scan).scan_key == old(scan).scan_key,
        final(scan).cache_key == old(scan).cache_key,
        final(scan).show_hidden == old(scan).show_hidden,
        final(scan).ignores == old(scan).ignores,
        final(scan).root_files_total == old(scan).root_files_total,
        final(scan).children == old(scan).children,
        ev.job_id == old(scan).job_id,
        ev.scan_key == old(scan).scan_key,
        ev.name@ == name@,
        ev.bytes == bytes,
{
    cache.upsert(
        child_key,
        CacheEntry { bytes, items: 0, completed: finished, updated_at: now_ms },
    );
    record_cached_child(scan, name, bytes)
}

/// Ends a cancelled scan: the job leaves the registry and nothing else
/// happens — no summary event exists for a cancelled scan, and the cache is
/// not touched (this function cannot reach it), so the root's entry stays
/// absent or not-completed.
pub fn abort_scan(jobs: &mut JobRegistry, scan: &ScanState)
    requires
        old(jobs).wf(),
    ensures
        final(jobs).wf(),
        final(jobs)@ == old(jobs)@.remove(scan.scan_key@),
{
    jobs.remove(scan.scan_key.as_str());
}

/// Ends a scan that ran to completion: the grand total — root-level files
/// plus every child total, saturating — is cached for the root as a
/// completed entry, the job leaves the registry, and the summary event
/// carrying the total is handed back as the scan's last event.
pub fn finish_scan(
    cache: &mut SizeCache,
    jobs: &mut JobRegistry,
    scan: &ScanState,
    now_ms: u64,
) -> (ev: SummaryEvent)
    requires
        old(cache).wf(),
        old(jobs).wf(),
    ensures
        final(cache).wf(),
        final(jobs).wf(),
        ev.bytes == spec_scan_total(*scan),
        final(cache)@ == old(cache)@.insert(
            scan.cache_key@,
            (CacheEntry { bytes: ev.bytes, items: 0, completed: true, updated_at: now_ms }),
        ),
        final(jobs)@ == old(jobs)@.remove(scan.scan_key@),
        ev.job_id == scan.job_id,
        ev.scan_key == scan.scan_key,
{
    let ghost values = child_total_values(scan.child_totals@);
    let mut total: u64 = scan.root_files_total;
    let mut i: usize = 0;
    proof {
        assert(values.subrange(0, 0) =~= Seq::<u64>::empty());
        assert(sat_add(scan.root_files_total, 0) == scan.root_files_total);
    }
    while i < scan.child_totals.len()
        invariant
            i <= scan.child_totals@.len(),
            values == child_total_values(scan.child_totals@),
            total == sat_add(scan.root_files_total, sat_sum(values.subrange(0, i as int))),
        decreases scan.child_totals@.len() - i,
    {
        let ghost prefix = values.subrange(0, i as int);
        total = total.saturating_add(scan.child_totals[i].1);
        proof {
            assert(values.subrange(0, i + 1) =~= prefix.push(values[i as int]));
            crate::sums::lemma_sat_sum_push(prefix, values[i as int]);
            crate::sums::lemma_sat_add_assoc(
                scan.root_files_total,
                sat_sum(prefix),
                values[i as int],
            );
        }
        i += 1;
    }
    proof {
        assert(values.subrange(0, values.len() as int) =~= values);
    }
    cache.upsert(
        &scan.cache_key,
        CacheEntry { bytes: total, items: 0, completed: true, updated_at: now_ms },
    );
    jobs.remove(scan.scan_key.as_str());
    SummaryEvent { job_id: scan.job_id.clone(), scan_key: scan.scan_key.clone(), bytes: total }
}

} // verus!
