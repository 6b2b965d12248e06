use path_sizer::keys::{ignores_sig, make_cache_key, make_scan_key, should_skip};

fn strs(v: &[&str]) -> Vec<String> {
    v.iter().map(|s| s.to_string()).collect()
}

#[test]
fn ignores_sig_sorts_and_joins() {
    assert_eq!(ignores_sig(&strs(&["b", "a"])), "a,b");
    assert_eq!(ignores_sig(&strs(&["target", "node_modules"])), "node_modules,target");
}

#[test]
fn ignores_sig_empty_list_is_empty() {
    assert_eq!(ignores_sig(&strs(&[])), "");
}

#[test]
fn ignores_sig_single_pattern_has_no_separator() {
    assert_eq!(ignores_sig(&strs(&["x"])), "x");
}

#[test]
fn ignores_sig_is_order_independent() {
    let a = ignores_sig(&strs(&["node_modules", ".git", "target"]));
    let b = ignores_sig(&strs(&["target", "node_modules", ".git"]));
    assert_eq!(a, b);
}

#[test]
fn ignores_sig_keeps_duplicates() {
    assert_eq!(ignores_sig(&strs(&["a", "b", "a"])), "a,a,b");
}

#[test]
fn scan_key_embeds_raw_path_flag_and_signature() {
    assert_eq!(make_scan_key("/tmp/x", true, &strs(&["b", "a"])), "/tmp/x|true|a,b");
    assert_eq!(make_scan_key("/tmp/x", false, &strs(&[])), "/tmp/x|false|");
}

#[test]
fn cache_key_carries_path_flag_and_signature() {
    let k = make_cache_key("/data", false, &strs(&["b", "a"]));
    assert_eq!(k.path, "/data");
    assert!(!k.show_hidden);
    assert_eq!(k.ignores_sig, "a,b");
}

#[test]
fn cache_keys_collapse_for_reordered_ignores() {
    let k1 = make_cache_key("/data", true, &strs(&["b", "a"]));
    let k2 = make_cache_key("/data", true, &strs(&["a", "b"]));
    assert!(k1.key_eq(&k2));
}

#[test]
fn hidden_entries_are_skipped_unless_requested() {
    assert!(should_skip(".git", false, &strs(&[])));
    assert!(!should_skip(".git", true, &strs(&[])));
    assert!(!should_skip("src", false, &strs(&[])));
}

#[test]
fn ignore_patterns_match_by_substring() {
    let igs = strs(&["node_modules"]);
    assert!(should_skip("node_modules", false, &igs));
    assert!(should_skip("old_node_modules_backup", true, &igs));
    assert!(!should_skip("node", false, &igs));
    // substring containment, not glob matching
    assert!(should_skip("modules", true, &strs(&["mod"])));
}

#[test]
fn empty_ignore_pattern_matches_everything() {
    assert!(should_skip("anything", true, &strs(&[""])));
}
