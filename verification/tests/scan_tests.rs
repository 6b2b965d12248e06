use path_sizer::cache::SizeCache;
use path_sizer::jobs::JobRegistry;
use path_sizer::keys::make_cache_key;
use path_sizer::scan::{
    abort_scan, ensure_scan, finish_scan, plan_child, record_cached_child, record_child_result,
    record_progress, tally_root_entries, ChildPlan, EntryKind, RootEntry,
};
use path_sizer::types::CacheEntry;
use path_sizer::walker::{walk_finish, walk_start, walk_step, WalkEntry};

fn strs(v: &[&str]) -> Vec<String> {
    v.iter().map(|s| s.to_string()).collect()
}

fn dir(name: &str) -> RootEntry {
    RootEntry { name: name.to_string(), kind: EntryKind::Directory, size: 0 }
}

fn file(name: &str, size: u64) -> RootEntry {
    RootEntry { name: name.to_string(), kind: EntryKind::File, size }
}

#[test]
fn summary_adds_root_files_and_child_totals() {
    // Root: one 100-byte file; two child directories sized 50 and 0 bytes
    // (one of them empty). The summary must say 150.
    let mut cache = SizeCache::new();
    let mut jobs = JobRegistry::new();
    let igs = strs(&[]);
    let mut scan = ensure_scan(&mut jobs, "/root", "/root", "req-1", false, &igs).unwrap();
    tally_root_entries(&mut scan, &vec![file("data.bin", 100), dir("full"), dir("empty")]);
    assert_eq!(scan.root_files_total, 100);
    assert_eq!(scan.children, strs(&["full", "empty"]));

    // walk "full": one 50-byte file
    let mut st = walk_start();
    let (st2, _) = walk_step(
        st,
        &WalkEntry { name: "blob".to_string(), file_size: Some(50) },
        false,
        &igs,
        false,
        false,
    );
    st = st2;
    let (bytes, finished, _) = walk_finish(st);
    let k_full = make_cache_key("/root/full", false, &igs);
    let ev = record_child_result(&mut cache, &mut scan, &k_full, "full", bytes, finished, 1);
    assert_eq!(ev.bytes, 50);

    // walk "empty": no entries at all
    let (bytes, finished, _) = walk_finish(walk_start());
    let k_empty = make_cache_key("/root/empty", false, &igs);
    record_child_result(&mut cache, &mut scan, &k_empty, "empty", bytes, finished, 2);

    let summary = finish_scan(&mut cache, &mut jobs, &scan, 3);
    assert_eq!(summary.bytes, 150);
    assert_eq!(summary.scan_key, "/root|false|");
    assert_eq!(summary.job_id, "req-1");

    // the root total is cached as completed, and the job is gone
    let root_key = make_cache_key("/root", false, &igs);
    let e = cache.get(&root_key).unwrap();
    assert_eq!(e.bytes, 150);
    assert!(e.completed);
    assert!(!jobs.contains("/root|false|"));
}

#[test]
fn duplicate_request_starts_nothing_and_one_summary_comes_out() {
    let mut cache = SizeCache::new();
    let mut jobs = JobRegistry::new();
    let igs = strs(&[]);
    let first = ensure_scan(&mut jobs, "/p", "/p", "a", true, &igs);
    assert!(first.is_some());
    // a second request for the same (path, filters) before the first
    // finished starts nothing
    assert!(ensure_scan(&mut jobs, "/p", "/p", "b", true, &igs).is_none());

    // only the first request runs to a summary
    let mut summaries = 0;
    let mut scan = first.unwrap();
    tally_root_entries(&mut scan, &vec![]);
    finish_scan(&mut cache, &mut jobs, &scan, 0);
    summaries += 1;
    assert_eq!(summaries, 1);

    // once the job is gone, a new request may start a fresh scan
    assert!(ensure_scan(&mut jobs, "/p", "/p", "c", true, &igs).is_some());
}

#[test]
fn empty_root_yields_zero_total_immediately() {
    let mut cache = SizeCache::new();
    let mut jobs = JobRegistry::new();
    let igs = strs(&[]);
    let mut scan = ensure_scan(&mut jobs, "/empty", "/empty", "r", false, &igs).unwrap();
    tally_root_entries(&mut scan, &vec![]);
    assert_eq!(scan.root_files_total, 0);
    assert!(scan.children.is_empty());
    let summary = finish_scan(&mut cache, &mut jobs, &scan, 0);
    assert_eq!(summary.bytes, 0);
}

#[test]
fn hidden_and_ignored_subtrees_contribute_nothing() {
    // .git is hidden; node_modules matches the ignore pattern: neither may
    // reach the children queue or the totals.
    let mut jobs = JobRegistry::new();
    let igs = strs(&["node_modules"]);
    let mut scan = ensure_scan(&mut jobs, "/r", "/r", "r", false, &igs).unwrap();
    tally_root_entries(
        &mut scan,
        &vec![
            dir(".git"),
            dir("node_modules"),
            dir("src"),
            file(".hidden_file", 1000),
            file("kept.txt", 10),
        ],
    );
    assert_eq!(scan.children, strs(&["src"]));
    assert_eq!(scan.root_files_total, 10);
}

#[test]
fn cancellation_suppresses_the_summary() {
    let mut cache = SizeCache::new();
    let mut jobs = JobRegistry::new();
    let igs = strs(&[]);
    let mut scan = ensure_scan(&mut jobs, "/c", "/c", "r", false, &igs).unwrap();
    tally_root_entries(&mut scan, &vec![dir("one"), dir("two")]);

    // first child finishes and its event fires
    let k_one = make_cache_key("/c/one", false, &igs);
    let ev = record_child_result(&mut cache, &mut scan, &k_one, "one", 30, true, 1);
    assert_eq!(ev.bytes, 30);

    // cancellation arrives before the second child
    jobs.request_cancel(&scan.scan_key);
    assert!(jobs.is_cancel_requested(&scan.scan_key));

    // the driver drains and aborts: no summary exists, the job is gone,
    // and the root's cache entry was never written
    abort_scan(&mut jobs, &scan);
    assert!(!jobs.contains(&scan.scan_key));
    let root_key = make_cache_key("/c", false, &igs);
    assert!(cache.get(&root_key).is_none());
}

#[test]
fn cancelled_child_is_cached_as_partial_only() {
    let mut cache = SizeCache::new();
    let mut jobs = JobRegistry::new();
    let igs = strs(&[]);
    let mut scan = ensure_scan(&mut jobs, "/c2", "/c2", "r", false, &igs).unwrap();
    tally_root_entries(&mut scan, &vec![dir("child")]);
    let k = make_cache_key("/c2/child", false, &igs);
    // the walk was cancelled midway: finished == false
    record_child_result(&mut cache, &mut scan, &k, "child", 12, false, 1);
    let e = cache.get(&k).unwrap();
    assert_eq!(e.bytes, 12);
    assert!(!e.completed);
}

#[test]
fn completed_cache_entry_skips_the_walk() {
    // The child's key already holds a completed 4096-byte entry: the plan
    // must reuse it, and the scan emits that value without any walking.
    let mut cache = SizeCache::new();
    let mut jobs = JobRegistry::new();
    let igs = strs(&[]);
    let k_child = make_cache_key("/r/sub", false, &igs);
    cache.upsert(&k_child, CacheEntry { bytes: 4096, items: 0, completed: true, updated_at: 0 });

    let mut scan = ensure_scan(&mut jobs, "/r", "/r", "r", false, &igs).unwrap();
    tally_root_entries(&mut scan, &vec![dir("sub")]);

    match plan_child(&cache, "/r/sub", false, &igs) {
        ChildPlan::Cached { bytes } => {
            assert_eq!(bytes, 4096);
            let ev = record_cached_child(&mut scan, "sub", bytes);
            assert_eq!(ev.bytes, 4096);
            assert_eq!(ev.name, "sub");
        },
        ChildPlan::Walk { .. } => panic!("a completed entry must be reused"),
    }
    let summary = finish_scan(&mut cache, &mut jobs, &scan, 1);
    assert_eq!(summary.bytes, 4096);
}

#[test]
fn partial_cache_entry_seeds_progress_then_walks() {
    let mut cache = SizeCache::new();
    let igs = strs(&[]);
    let k = make_cache_key("/r/sub", false, &igs);
    cache.upsert(&k, CacheEntry { bytes: 123, items: 0, completed: false, updated_at: 0 });
    assert_eq!(plan_child(&cache, "/r/sub", false, &igs), ChildPlan::Walk { seed: Some(123) });

    cache.upsert(&k, CacheEntry { bytes: 0, items: 0, completed: false, updated_at: 0 });
    assert_eq!(plan_child(&cache, "/r/sub", false, &igs), ChildPlan::Walk { seed: None });

    assert_eq!(plan_child(&cache, "/r/other", false, &igs), ChildPlan::Walk { seed: None });
}

#[test]
fn progress_writes_are_partial_entries() {
    let mut cache = SizeCache::new();
    let mut jobs = JobRegistry::new();
    let igs = strs(&[]);
    let scan = ensure_scan(&mut jobs, "/p", "/p", "r", false, &igs).unwrap();
    let k = make_cache_key("/p/sub", false, &igs);
    let ev = record_progress(&mut cache, &scan, &k, "sub", 555, 9);
    assert_eq!(ev.bytes, 555);
    assert_eq!(ev.name, "sub");
    assert_eq!(ev.scan_key, "/p|false|");
    let e = cache.get(&k).unwrap();
    assert_eq!(e.bytes, 555);
    assert!(!e.completed);
    assert_eq!(e.updated_at, 9);
}

#[test]
fn root_file_sums_saturate() {
    let mut jobs = JobRegistry::new();
    let igs = strs(&[]);
    let mut scan = ensure_scan(&mut jobs, "/s", "/s", "r", true, &igs).unwrap();
    tally_root_entries(&mut scan, &vec![file("a", u64::MAX), file("b", 5)]);
    assert_eq!(scan.root_files_total, u64::MAX);
}
