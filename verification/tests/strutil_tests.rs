use path_sizer::strutil::{clone_strings, contains_substr, join_comma, lex_le_exec, sort_strings, str_eq};

fn strs(v: &[&str]) -> Vec<String> {
    v.iter().map(|s| s.to_string()).collect()
}

#[test]
fn lexicographic_order_by_scalar_value() {
    assert!(lex_le_exec("", ""));
    assert!(lex_le_exec("", "a"));
    assert!(!lex_le_exec("a", ""));
    assert!(lex_le_exec("abc", "abd"));
    assert!(!lex_le_exec("abd", "abc"));
    assert!(lex_le_exec("ab", "abc"));
    assert!(lex_le_exec("B", "a"));
}

#[test]
fn string_equality_is_by_characters() {
    assert!(str_eq("", ""));
    assert!(str_eq("abc", "abc"));
    assert!(!str_eq("abc", "abd"));
    assert!(!str_eq("ab", "abc"));
}

#[test]
fn substring_containment() {
    assert!(contains_substr("node_modules", "node"));
    assert!(contains_substr("node_modules", "modules"));
    assert!(contains_substr("node_modules", "e_m"));
    assert!(contains_substr("anything", ""));
    assert!(!contains_substr("", "a"));
    assert!(!contains_substr("node", "node_modules"));
}

#[test]
fn sorting_strings() {
    assert_eq!(sort_strings(&strs(&["b", "a", "c"])), strs(&["a", "b", "c"]));
    assert_eq!(sort_strings(&strs(&[])), strs(&[]));
    assert_eq!(sort_strings(&strs(&["x", "x", "a"])), strs(&["a", "x", "x"]));
}

#[test]
fn joining_with_commas() {
    assert_eq!(join_comma(&strs(&[])), "");
    assert_eq!(join_comma(&strs(&["a"])), "a");
    assert_eq!(join_comma(&strs(&["a", "b", "c"])), "a,b,c");
}

#[test]
fn cloning_string_vectors() {
    let v = strs(&["one", "two"]);
    assert_eq!(clone_strings(&v), v);
}
