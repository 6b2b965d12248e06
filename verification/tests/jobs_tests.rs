use path_sizer::jobs::JobRegistry;
use path_sizer::keys::make_cache_key;
use path_sizer::types::Job;

fn job() -> Job {
    Job { key: make_cache_key("/p", false, &Vec::new()), cancel: false }
}

#[test]
fn first_registration_wins_second_is_refused() {
    let mut jobs = JobRegistry::new();
    assert!(jobs.insert_if_absent("k".to_string(), job()));
    assert!(!jobs.insert_if_absent("k".to_string(), job()));
    assert!(jobs.contains("k"));
}

#[test]
fn removal_frees_the_key_for_a_new_scan() {
    let mut jobs = JobRegistry::new();
    assert!(jobs.insert_if_absent("k".to_string(), job()));
    jobs.remove("k");
    assert!(!jobs.contains("k"));
    assert!(jobs.insert_if_absent("k".to_string(), job()));
}

#[test]
fn removal_is_idempotent() {
    let mut jobs = JobRegistry::new();
    jobs.remove("never-there");
    assert!(jobs.insert_if_absent("k".to_string(), job()));
    jobs.remove("k");
    jobs.remove("k");
    assert!(!jobs.contains("k"));
}

#[test]
fn cancellation_flips_the_signal_of_a_live_job() {
    let mut jobs = JobRegistry::new();
    assert!(jobs.insert_if_absent("k".to_string(), job()));
    assert!(!jobs.is_cancel_requested("k"));
    jobs.request_cancel("k");
    assert!(jobs.is_cancel_requested("k"));
    assert!(jobs.contains("k"));
}

#[test]
fn cancellation_of_a_missing_job_is_a_no_op() {
    let mut jobs = JobRegistry::new();
    jobs.request_cancel("ghost");
    assert!(!jobs.is_cancel_requested("ghost"));
    assert!(!jobs.contains("ghost"));
}

#[test]
fn keys_are_independent() {
    let mut jobs = JobRegistry::new();
    assert!(jobs.insert_if_absent("a".to_string(), job()));
    assert!(jobs.insert_if_absent("b".to_string(), job()));
    jobs.request_cancel("a");
    assert!(jobs.is_cancel_requested("a"));
    assert!(!jobs.is_cancel_requested("b"));
    jobs.remove("a");
    assert!(jobs.contains("b"));
}
