use path_sizer::walker::{
    walk_finish, walk_start, walk_step, WalkEntry, PROGRESS_BYTES_STEP, PROGRESS_FILES_STEP,
};

fn file(name: &str, size: u64) -> WalkEntry {
    WalkEntry { name: name.to_string(), file_size: Some(size) }
}

#[test]
fn file_count_trigger_fires_on_many_small_files() {
    // A synthetic subtree of 10,000 zero-byte files: the byte-jump trigger
    // can never fire, yet progress must still be published.
    let igs: Vec<String> = Vec::new();
    let mut st = walk_start();
    let mut emissions = 0u32;
    let entry = file("f", 0);
    for _ in 0..10_000 {
        let (st2, emitted) = walk_step(st, &entry, true, &igs, false, false);
        st = st2;
        if emitted.is_some() {
            emissions += 1;
        }
    }
    assert!(emissions >= 1);
    assert_eq!(emissions, 10_000 / PROGRESS_FILES_STEP);
    let (sum, finished, _) = walk_finish(st);
    assert_eq!(sum, 0);
    assert!(finished);
}

#[test]
fn byte_jump_trigger_fires_on_a_large_file() {
    let igs: Vec<String> = Vec::new();
    let st = walk_start();
    let (st2, emitted) = walk_step(st, &file("big", PROGRESS_BYTES_STEP), true, &igs, false, false);
    assert_eq!(emitted, Some(PROGRESS_BYTES_STEP));
    assert_eq!(st2.sum, PROGRESS_BYTES_STEP);
    assert_eq!(st2.last_emitted, PROGRESS_BYTES_STEP);
}

#[test]
fn time_trigger_fires_even_for_one_small_file() {
    let igs: Vec<String> = Vec::new();
    let st = walk_start();
    let (_, emitted) = walk_step(st, &file("small", 7), true, &igs, true, false);
    assert_eq!(emitted, Some(7));
}

#[test]
fn quiet_walk_forces_one_final_emission() {
    let igs: Vec<String> = Vec::new();
    let st = walk_start();
    let (st2, emitted) = walk_step(st, &file("small", 7), true, &igs, false, false);
    assert!(emitted.is_none());
    let (sum, finished, last) = walk_finish(st2);
    assert_eq!(sum, 7);
    assert!(finished);
    assert_eq!(last, Some(7));
}

#[test]
fn no_final_emission_when_nothing_went_stale() {
    let igs: Vec<String> = Vec::new();
    let st = walk_start();
    let (st2, emitted) = walk_step(st, &file("small", 7), true, &igs, true, false);
    assert_eq!(emitted, Some(7));
    let (_, _, last) = walk_finish(st2);
    assert!(last.is_none());
}

#[test]
fn filtered_entries_contribute_nothing() {
    let igs = vec!["node_modules".to_string()];
    let mut st = walk_start();
    let (st2, _) = walk_step(st, &file(".hidden", 100), false, &igs, false, false);
    st = st2;
    let (st3, _) = walk_step(st, &file("node_modules", 100), false, &igs, false, false);
    st = st3;
    // a directory entry carries no file size and contributes nothing either
    let dir = WalkEntry { name: "sub".to_string(), file_size: None };
    let (st4, _) = walk_step(st, &dir, false, &igs, false, false);
    assert_eq!(st4.sum, 0);
    assert_eq!(st4.files_since, 0);
}

#[test]
fn cancellation_stops_the_walk_before_the_entry() {
    let igs: Vec<String> = Vec::new();
    let st = walk_start();
    let (st2, emitted) = walk_step(st, &file("f", 50), true, &igs, false, true);
    assert!(emitted.is_none());
    assert_eq!(st2.sum, 0);
    assert!(st2.canceled);
    let (sum, finished, _) = walk_finish(st2);
    assert_eq!(sum, 0);
    assert!(!finished);
}

#[test]
fn sums_saturate_instead_of_wrapping() {
    let igs: Vec<String> = Vec::new();
    let st = walk_start();
    let (st2, _) = walk_step(st, &file("huge", u64::MAX), true, &igs, false, false);
    let (st3, _) = walk_step(st2, &file("more", 5), true, &igs, false, false);
    assert_eq!(st3.sum, u64::MAX);
}

#[test]
fn published_values_never_decrease() {
    let igs: Vec<String> = Vec::new();
    let mut st = walk_start();
    let mut published: Vec<u64> = Vec::new();
    let sizes = [3u64, 0, 900, 12, 0, 44, 1_000_000, 2];
    for (i, sz) in sizes.iter().enumerate() {
        let due = i % 2 == 0;
        let (st2, emitted) = walk_step(st, &file("f", *sz), true, &igs, due, false);
        st = st2;
        if let Some(v) = emitted {
            published.push(v);
        }
    }
    let (_, _, last) = walk_finish(st);
    if let Some(v) = last {
        published.push(v);
    }
    assert!(published.windows(2).all(|w| w[0] <= w[1]));
}
