//! The plain deny list.

use mount_deny::deny::{join_path, DenyList};

fn deny(patterns: &[&str]) -> DenyList {
    let owned: Vec<String> = patterns.iter().map(|s| s.to_string()).collect();
    DenyList::new(&owned)
}

#[test]
fn deny_empty_list_denies_nothing() {
    let list = deny(&[]);
    assert!(!list.matches_basename(b"anything"));
    assert!(!list.matches_path(b"dir/anything"));
}

#[test]
fn deny_basename_pattern_matches_anywhere() {
    let list = deny(&[".env", "*.log"]);
    assert!(list.has_path_patterns() == false);
    assert!(list.matches_basename(b".env"));
    assert!(list.matches_basename(b"debug.log"));
    assert!(!list.matches_basename(b"env"));
    assert!(!list.matches_basename(b"keep.txt"));
}

#[test]
fn deny_path_pattern_matches_full_path() {
    let list = deny(&["dir/secret", "**/env.secret"]);
    assert!(list.has_path_patterns());
    assert!(list.matches_path(b"dir/secret"));
    assert!(list.matches_path(b"a/b/c/env.secret"));
    assert!(!list.matches_path(b"dir/other"));
    assert!(!list.matches_path(b"secret"));
}

#[test]
fn deny_path_pattern_does_not_match_basename() {
    let list = deny(&["dir/secret"]);
    assert!(!list.matches_basename(b"secret"));
}

#[test]
fn deny_invalid_pattern_is_skipped() {
    let list = deny(&["[unclosed"]);
    assert!(!list.matches_basename(b"anything"));
}

#[test]
fn a_trailing_separator_makes_a_path_pattern() {
    assert!(deny(&["node_modules/"]).has_path_patterns());
    assert!(deny(&[".env", "a/b"]).has_path_patterns());
    assert!(!deny(&[]).has_path_patterns());
}

#[test]
fn dir_only_patterns_hide_nothing() {
    let list = deny(&["node_modules/"]);
    assert!(!list.matches_path(b"node_modules"));
    assert!(!list.matches_basename(b"node_modules"));
}

#[test]
fn case_counts() {
    let list = deny(&[".env"]);
    assert!(list.matches_basename(b".env"));
    assert!(!list.matches_basename(b".ENV"));
}

#[test]
fn names_suffice_without_path_patterns() {
    let list = deny(&[".env", "*.log", "[a-z]", "!keep.log"]);
    for name in [".env", "x.log", "keep.log", "q", "qq", "Q"] {
        for dir in ["", "a", "a/b", ".env", "x.log/y"] {
            let path = format!("{}/{}", dir, name);
            assert_eq!(
                list.matches_path(path.as_bytes()),
                list.matches_basename(name.as_bytes()),
                "{}",
                path
            );
        }
    }
}

#[test]
fn the_path_of_an_entry_is_joined_from_its_names() {
    let list = deny(&["sub/.env"]);
    let path = join_path(&[b"sub".to_vec(), b".env".to_vec()]);
    assert_eq!(path, b"sub/.env".to_vec());
    assert!(list.matches_path(&path));
}
